//! Sending files: how a file's name is shown, what it is called on the wire, and how many files are under
//! way at once.

use vstd::multiset::Multiset;
use vstd::prelude::*;
use vstd::string::StringExecFns;

use crate::dial;
use crate::dial::BindRole;
use crate::dial::Slip;
use crate::text;

verus! {

broadcast use {vstd::seq::group_seq_axioms, vstd::string::group_string_axioms};

/// The service a receiver publishes.
pub const RECV_SERVICE: &'static str = "recv";

/// The most files under way at once.
pub const MAX_INFLIGHT: usize = 16;

/// The most characters of a file's name that are shown.
pub const MAX_RENDERED_NAME: usize = 256;

/// What `char::escape_debug` makes of a character.
pub uninterp spec fn debug_escape(c: char) -> Seq<char>;

/// `char::escape_debug`: the literal escape code of a character, as text, which for a newline is a backslash
/// and an `n`. Which other characters are escaped, and how, is not stated here; it depends on the character
/// alone.
#[verifier::external_body]
fn escape_char(c: char) -> (escaped: String)
    ensures
        escaped@ == debug_escape(c),
        c == '\n' ==> escaped@ == seq!['\\', 'n'],
{
    c.escape_debug().to_string()
}

/// The parts of `parts` that fit into `room` characters, in order, and a mark where one did not. A part is
/// shown whole or not at all.
pub open spec fn capped(parts: Seq<Seq<char>>, room: int) -> Seq<char>
    decreases parts.len(),
{
    if parts.len() == 0 {
        Seq::empty()
    } else if parts[0].len() > room {
        "..."@
    } else {
        parts[0] + capped(parts.drop_first(), room - parts[0].len())
    }
}

/// The escapes of a name's characters.
pub open spec fn escapes(name: Seq<char>) -> Seq<Seq<char>> {
    name.map_values(|c: char| debug_escape(c))
}

/// A name as it is shown.
pub open spec fn shown(name: Seq<char>) -> Seq<char> {
    capped(escapes(name), MAX_RENDERED_NAME as int)
}

/// The escapes that fit, each whole, and a mark where one did not.
pub fn cap_escapes(parts: &Vec<String>) -> (out: String)
    ensures
        out@ == capped(text::texts(parts@), MAX_RENDERED_NAME as int),
{
    let ghost all = text::texts(parts@);
    let mut out = String::new();
    let mut room: usize = MAX_RENDERED_NAME;
    let mut i: usize = 0;
    assert(all.skip(0) =~= all);
    assert(out@ + capped(all.skip(0), room as int) =~= capped(all, room as int));
    while i < parts.len()
        invariant
            i <= parts.len(),
            all == text::texts(parts@),
            out@ + capped(all.skip(i as int), room as int) == capped(
                all,
                MAX_RENDERED_NAME as int,
            ),
        decreases parts.len() - i,
    {
        let width: usize = text::chars_of(parts[i].as_str()).len();
        assert(all.skip(i as int)[0] == parts@[i as int]@);
        assert(all.skip(i as int).drop_first() =~= all.skip(i + 1));
        if width > room {
            out.append("...");
            return out;
        }
        let ghost before = out@;
        out.append(parts[i].as_str());
        room = room - width;
        i = i + 1;
        assert(before + (all[i - 1] + capped(all.skip(i as int), room as int)) =~= out@ + capped(
            all.skip(i as int),
            room as int,
        ));
    }
    assert(all.skip(i as int).len() == 0);
    assert(out@ + capped(all.skip(i as int), room as int) =~= out@);
    out
}

/// A pushed file's name as the sender shows it: its control characters escaped, and its length capped.
pub fn render_name(name: &str) -> (out: String)
    ensures
        out@ == shown(name@),
        forall|i: int|
            0 <= i < name@.len() && name@[i] == '\n' ==> #[trigger] escapes(name@)[i] == seq![
                '\\',
                'n',
            ],
{
    let chars = text::chars_of(name);
    let mut parts: Vec<String> = Vec::new();
    let mut i: usize = 0;
    while i < chars.len()
        invariant
            i <= chars.len(),
            chars@ == name@,
            parts.len() == i,
            forall|k: int| 0 <= k < i ==> (#[trigger] parts@[k])@ == debug_escape(name@[k]),
            forall|k: int|
                0 <= k < i && name@[k] == '\n' ==> (#[trigger] parts@[k])@ == seq!['\\', 'n'],
        decreases chars.len() - i,
    {
        parts.push(escape_char(chars[i]));
        i = i + 1;
    }
    assert(text::texts(parts@) =~= escapes(name@));
    assert forall|k: int| 0 <= k < name@.len() && name@[k] == '\n' implies #[trigger] escapes(
        name@,
    )[k] == seq!['\\', 'n'] by {
        assert(escapes(name@)[k] == parts@[k]@);
    }
    cap_escapes(&parts)
}

/// A path as the sender shows it, through the same escape as a name.
pub fn render_path(path: &str) -> (out: String)
    ensures
        out@ == shown(path@),
        forall|i: int|
            0 <= i < path@.len() && path@[i] == '\n' ==> #[trigger] escapes(path@)[i] == seq![
                '\\',
                'n',
            ],
{
    render_name(path)
}

/// The file's own name, for a single-file push. `component` is the path's last one, where it has one that
/// is text; a path without one is an error rather than a silent misname.
pub fn file_name(path: &str, component: Option<&str>) -> (name: Result<String, String>)
    ensures
        match (component, name) {
            (Some(last), Ok(name)) => name@ == last@,
            (None, Err(line)) => line@ == "path has no file name: "@ + shown(path@),
            _ => false,
        },
{
    match component {
        Some(last) => Ok(last.to_owned()),
        None => {
            let mut line = "path has no file name: ".to_owned();
            line.append(render_path(path).as_str());
            Err(line)
        },
    }
}

/// A relative path as it is written on the wire: with `/` for `\`.
pub open spec fn on_the_wire(relative: Seq<char>) -> Seq<char> {
    relative.map_values(
        |c: char|
            if c == '\\' {
                '/'
            } else {
                c
            },
    )
}

/// A file keeps its name on the wire: as long as its path, the same character at each place, and only a
/// backslash is written as a slash. So two paths without a backslash that differ are sent under different
/// names.
pub proof fn a_file_keeps_its_name_on_the_wire(a: Seq<char>, b: Seq<char>)
    ensures
        on_the_wire(a).len() == a.len(),
        forall|i: int|
            0 <= i < a.len() ==> #[trigger] on_the_wire(a)[i] == if a[i] == '\\' {
                '/'
            } else {
                a[i]
            },
        !a.contains('\\') ==> on_the_wire(a) == a,
        !a.contains('\\') && !b.contains('\\') && a != b ==> on_the_wire(a) != on_the_wire(b),
{
    if !a.contains('\\') {
        assert(on_the_wire(a) =~= a);
    }
    if !b.contains('\\') {
        assert(on_the_wire(b) =~= b);
    }
}

/// What a file under a directory is called on the wire.
pub fn wire_name(relative: &str) -> (out: String)
    ensures
        out@ == on_the_wire(relative@),
        out@.len() == relative@.len(),
        forall|i: int|
            0 <= i < relative@.len() ==> #[trigger] out@[i] == if relative@[i] == '\\' {
                '/'
            } else {
                relative@[i]
            },
{
    let chars = text::chars_of(relative);
    let mut out = String::new();
    let mut i: usize = 0;
    while i < chars.len()
        invariant
            i <= chars.len(),
            chars@ == relative@,
            out@ == on_the_wire(relative@.take(i as int)),
        decreases chars.len() - i,
    {
        if chars[i] == '\\' {
            out.push('/');
        } else {
            out.push(chars[i]);
        }
        i = i + 1;
        assert(out@ =~= on_the_wire(relative@.take(i as int)));
    }
    assert(relative@.take(i as int) =~= relative@);
    out
}

/// The line of a file that was sent.
pub fn sent_line(name: &str, bytes: u64) -> (line: String)
    ensures
        line@ == "sent "@ + shown(name@) + " ("@ + text::decimal(bytes as nat) + " bytes)"@,
{
    let mut line = "sent ".to_owned();
    line.append(render_name(name).as_str());
    line.append(" (");
    text::push_decimal(&mut line, bytes as u128);
    line.append(" bytes)");
    line
}

/// The line of a path that was skipped.
pub fn skip_line(path: &str, error: &str) -> (line: String)
    ensures
        line@ == "skip "@ + shown(path@) + ": "@ + error@,
{
    let mut line = "skip ".to_owned();
    line.append(render_path(path).as_str());
    line.append(": ");
    line.append(error);
    line
}

/// The context of an error about a path: what was done to it, and the path.
pub fn path_context(act: &str, path: &str) -> (line: String)
    ensures
        line@ == act@ + " "@ + shown(path@),
{
    let mut line = act.to_owned();
    line.append(" ");
    line.append(render_path(path).as_str());
    line
}

/// Push files or directories to a peer.
#[derive(Debug)]
pub struct SendCmd {
    pub paths: Vec<String>,
    pub peer: String,
    /// The peer's file-receiving service.
    pub service: String,
    /// A link to present in place of the badge.
    pub present: Option<String>,
}

impl SendCmd {
    /// A send dials as one of the family.
    pub fn bind_role(&self, own: Option<&Slip>) -> (role: BindRole)
        ensures
            role@ == dial::as_family(dial::opt_slip(own), dial::opt(self.present)),
    {
        BindRole::family(own, &self.present)
    }
}

/// What a path is.
#[derive(Debug, Clone, Copy, PartialEq, Eq, Structural)]
pub enum Kind {
    Directory,
    File,
    /// Neither: a link, a pipe, a device.
    Other,
}

/// An entry of a directory: what it is, its path relative to the parent of the root, and the place its
/// own path is kept at.
#[derive(Debug)]
pub struct Entry {
    pub kind: Kind,
    pub relative: String,
    pub place: usize,
}

/// A file to send: what it is called on the wire, and the place its path is kept at.
#[derive(Debug)]
pub struct Picked {
    pub name: String,
    pub place: usize,
}

/// The files to send, as values.
pub open spec fn picked_views(files: Seq<Picked>) -> Seq<(Seq<char>, usize)> {
    files.map_values(|f: Picked| (f.name@, f.place))
}

/// The files among entries, in their order.
pub open spec fn files_in(entries: Seq<Entry>) -> Seq<(Seq<char>, usize)>
    decreases entries.len(),
{
    if entries.len() == 0 {
        Seq::empty()
    } else {
        let rest = files_in(entries.drop_last());
        if entries.last().kind == Kind::File {
            rest.push((on_the_wire(entries.last().relative@), entries.last().place))
        } else {
            rest
        }
    }
}

/// The directories among entries, in their order.
pub open spec fn directories_in(entries: Seq<Entry>) -> Seq<usize>
    decreases entries.len(),
{
    if entries.len() == 0 {
        Seq::empty()
    } else {
        let rest = directories_in(entries.drop_last());
        if entries.last().kind == Kind::Directory {
            rest.push(entries.last().place)
        } else {
            rest
        }
    }
}

/// A walk through what is under one path: the directories left to read, and the files found so far.
#[derive(Debug)]
pub struct Walk {
    left: Vec<usize>,
    files: Vec<Picked>,
}

impl Walk {
    /// The directories left to read; the last is read next.
    pub closed spec fn left(&self) -> Seq<usize> {
        self.left@
    }

    /// The files found so far.
    pub closed spec fn files(&self) -> Seq<(Seq<char>, usize)> {
        picked_views(self.files@)
    }

    /// Begin at a path. A file is itself, under its own name; anything else is read as a directory.
    pub fn begin(kind: Kind, path: &str, component: Option<&str>, place: usize) -> (walk: Result<
        Walk,
        String,
    >)
        ensures
            match walk {
                Ok(walk) => if kind == Kind::File {
                    component is Some && walk.left() == Seq::<usize>::empty() && walk.files()
                        == seq![(component->0@, place)]
                } else {
                    walk.left() == seq![place] && walk.files() == Seq::<(Seq<char>, usize)>::empty()
                },
                Err(line) => kind == Kind::File && component is None && line@
                    == "path has no file name: "@ + shown(path@),
            },
    {
        let mut left: Vec<usize> = Vec::new();
        let mut files: Vec<Picked> = Vec::new();
        if kind == Kind::File {
            let name = match file_name(path, component) {
                Ok(name) => name,
                Err(line) => {
                    return Err(line);
                },
            };
            files.push(Picked { name, place });
            assert(picked_views(files@) =~= seq![(component->0@, place)]);
            assert(left@ =~= Seq::<usize>::empty());
        } else {
            left.push(place);
            assert(picked_views(files@) =~= Seq::<(Seq<char>, usize)>::empty());
            assert(left@ =~= seq![place]);
        }
        Ok(Walk { left, files })
    }

    /// The directory to read next, if one is left.
    pub fn next(&mut self) -> (directory: Option<usize>)
        ensures
            final(self).files() == old(self).files(),
            match directory {
                Some(place) => old(self).left().len() > 0 && place == old(self).left().last()
                    && final(self).left() == old(self).left().drop_last(),
                None => old(self).left().len() == 0 && final(self).left() == old(self).left(),
            },
    {
        self.left.pop()
    }

    /// Take what a directory holds: its files are found in order, its directories are left to read, and
    /// the rest is passed over.
    pub fn take(&mut self, entries: &Vec<Entry>)
        ensures
            final(self).left() == old(self).left() + directories_in(entries@),
            final(self).files() == old(self).files() + files_in(entries@),
    {
        let ghost left = self.left@;
        let ghost files = picked_views(self.files@);
        let mut i: usize = 0;
        assert(left + directories_in(entries@.take(0)) =~= left);
        assert(files + files_in(entries@.take(0)) =~= files);
        while i < entries.len()
            invariant
                i <= entries.len(),
                self.left@ == left + directories_in(entries@.take(i as int)),
                picked_views(self.files@) == files + files_in(entries@.take(i as int)),
            decreases entries.len() - i,
        {
            assert(entries@.take(i + 1).drop_last() =~= entries@.take(i as int));
            match entries[i].kind {
                Kind::Directory => {
                    self.left.push(entries[i].place);
                    assert(self.left@ =~= left + directories_in(entries@.take(i + 1)));
                },
                Kind::File => {
                    let ghost before = self.files@;
                    let name = wire_name(entries[i].relative.as_str());
                    self.files.push(Picked { name, place: entries[i].place });
                    assert(picked_views(self.files@) =~= picked_views(before).push(
                        (on_the_wire(entries@[i as int].relative@), entries@[i as int].place),
                    ));
                    assert(picked_views(self.files@) =~= files + files_in(entries@.take(i + 1)));
                },
                Kind::Other => {},
            }
            i = i + 1;
        }
        assert(entries@.take(i as int) =~= entries@);
    }

    /// The files found.
    pub fn found(&self) -> (files: &Vec<Picked>)
        ensures
            picked_views(files@) == self.files(),
    {
        &self.files
    }
}

/// The files of one send: how many there are, how many were started, and how many are under way.
#[derive(Debug)]
pub struct Sending {
    total: usize,
    started: usize,
    inflight: usize,
    failures: usize,
}

impl Sending {
    pub closed spec fn total(&self) -> int {
        self.total as int
    }

    /// The files started so far: the first this many.
    pub closed spec fn started(&self) -> int {
        self.started as int
    }

    pub closed spec fn inflight(&self) -> int {
        self.inflight as int
    }

    /// The items that failed or were skipped so far.
    pub closed spec fn failures(&self) -> int {
        self.failures as int
    }

    /// The files go out in order, at most a pipeline's depth at once, and the pipeline is full as long as
    /// there is a file to start.
    pub closed spec fn wf(&self) -> bool {
        &&& self.inflight <= self.started <= self.total
        &&& self.inflight <= MAX_INFLIGHT
        &&& self.inflight < MAX_INFLIGHT ==> self.started == self.total
        &&& self.failures + self.inflight + (self.total - self.started) <= usize::MAX
    }

    /// Start sending `total` files, with `skipped` items already given up. The first ones to start are
    /// those `started` counts.
    pub fn begin(total: usize, skipped: usize) -> (sending: Sending)
        requires
            total + skipped <= usize::MAX,
        ensures
            sending.wf(),
            sending.total() == total,
            sending.failures() == skipped,
            sending.started() == sending.inflight(),
            sending.started() == if total < MAX_INFLIGHT {
                total as int
            } else {
                MAX_INFLIGHT as int
            },
    {
        let first: usize = if total < MAX_INFLIGHT {
            total
        } else {
            MAX_INFLIGHT
        };
        Sending { total, started: first, inflight: first, failures: skipped }
    }

    /// How many files were started.
    pub fn count(&self) -> (n: usize)
        ensures
            n == self.started(),
    {
        self.started
    }

    /// Whether every file was started and none is under way.
    pub fn is_done(&self) -> (yes: bool)
        requires
            self.wf(),
        ensures
            yes == (self.inflight() == 0),
            yes ==> self.started() == self.total(),
    {
        self.inflight == 0
    }

    /// Take the end of one file: the next file to start, if any is left.
    pub fn finished(&mut self, sent: bool) -> (next: Option<usize>)
        requires
            old(self).wf(),
            old(self).inflight() > 0,
        ensures
            final(self).wf(),
            final(self).total() == old(self).total(),
            final(self).failures() == old(self).failures() + (if sent {
                0int
            } else {
                1
            }),
            match next {
                Some(file) => file == old(self).started() && file < old(self).total()
                    && final(self).started() == file + 1 && final(self).inflight()
                    == old(self).inflight(),
                None => old(self).started() == old(self).total() && final(self).started()
                    == old(self).started() && final(self).inflight() == old(self).inflight() - 1,
            },
    {
        if !sent {
            self.failures = self.failures + 1;
        }
        if self.started < self.total {
            let file: usize = self.started;
            self.started = self.started + 1;
            return Some(file);
        }
        self.inflight = self.inflight - 1;
        None
    }

    /// How the send ends: in an error where an item could not be sent.
    pub fn result(&self) -> (result: Result<(), String>)
        requires
            self.wf(),
        ensures
            match result {
                Ok(()) => self.failures() == 0,
                Err(line) => self.failures() > 0 && line@ == text::decimal(self.failures() as nat)
                    + " item(s) could not be sent"@,
            },
    {
        if self.failures > 0 {
            let mut line = text::decimal_text(self.failures as u128);
            line.append(" item(s) could not be sent");
            return Err(line);
        }
        Ok(())
    }
}

/// What lies under a path.
pub ghost enum Tree {
    Directory { place: usize, held: Seq<Tree> },
    File { relative: Seq<char>, place: usize },
    Other,
}

/// The files under a path, as they are sent.
pub open spec fn under(tree: Tree) -> Multiset<(Seq<char>, usize)>
    decreases tree,
{
    match tree {
        Tree::Directory { place, held } => under_all(held),
        Tree::File { relative, place } => Multiset::singleton((on_the_wire(relative), place)),
        Tree::Other => Multiset::empty(),
    }
}

/// The files under some paths.
pub open spec fn under_all(trees: Seq<Tree>) -> Multiset<(Seq<char>, usize)>
    decreases trees,
{
    if trees.len() == 0 {
        Multiset::empty()
    } else {
        under_all(trees.subrange(0, trees.len() - 1)).add(under(trees[trees.len() - 1]))
    }
}

/// Whether an entry lists a path.
pub open spec fn lists(entry: Entry, tree: Tree) -> bool {
    match tree {
        Tree::Directory { place, held } => entry.kind == Kind::Directory && entry.place == place,
        Tree::File { relative, place } => entry.kind == Kind::File && entry.relative@ == relative
            && entry.place == place,
        Tree::Other => entry.kind == Kind::Other,
    }
}

/// Whether entries list what a directory holds.
pub open spec fn listing(entries: Seq<Entry>, held: Seq<Tree>) -> bool {
    &&& entries.len() == held.len()
    &&& forall|i: int| 0 <= i < held.len() ==> lists(#[trigger] entries[i], held[i])
}

/// The directories among paths, in their order.
pub open spec fn directories(held: Seq<Tree>) -> Seq<Tree>
    decreases held.len(),
{
    if held.len() == 0 {
        Seq::empty()
    } else {
        let rest = directories(held.drop_last());
        if held.last() is Directory {
            rest.push(held.last())
        } else {
            rest
        }
    }
}

/// Where the paths of directories are kept.
pub open spec fn places(trees: Seq<Tree>) -> Seq<usize> {
    trees.map_values(
        |t: Tree|
            match t {
                Tree::Directory { place, held } => place,
                Tree::File { relative, place } => place,
                Tree::Other => 0,
            },
    )
}

proof fn lemma_under_push(trees: Seq<Tree>, tree: Tree)
    ensures
        under_all(trees.push(tree)) == under_all(trees).add(under(tree)),
{
    assert(trees.push(tree).subrange(0, trees.len() as int) =~= trees);
}

proof fn lemma_under_concat(a: Seq<Tree>, b: Seq<Tree>)
    ensures
        under_all(a + b) == under_all(a).add(under_all(b)),
    decreases b.len(),
{
    if b.len() == 0 {
        assert(a + b =~= a);
        assert(under_all(a).add(under_all(b)) =~= under_all(a));
    } else {
        let rest = b.drop_last();
        lemma_under_concat(a, rest);
        assert(a + b =~= (a + rest).push(b.last()));
        assert(b =~= rest.push(b.last()));
        lemma_under_push(a + rest, b.last());
        lemma_under_push(rest, b.last());
        assert(under_all(a).add(under_all(rest)).add(under(b.last())) =~= under_all(a).add(
            under_all(rest).add(under(b.last())),
        ));
    }
}

/// A listing is its files and its directories, and no file is lost between the two.
proof fn lemma_listing_is_split(entries: Seq<Entry>, held: Seq<Tree>)
    requires
        listing(entries, held),
    ensures
        directories_in(entries) == places(directories(held)),
        files_in(entries).to_multiset().add(under_all(directories(held))) == under_all(held),
    decreases held.len(),
{
    broadcast use vstd::seq_lib::group_to_multiset_ensures;

    if held.len() == 0 {
        assert(directories_in(entries) =~= places(directories(held)));
        assert(files_in(entries).to_multiset().add(under_all(directories(held))) =~= under_all(
            held,
        ));
    } else {
        let before = entries.drop_last();
        let rest = held.drop_last();
        let last = held.last();
        assert(listing(before, rest)) by {
            assert forall|i: int| 0 <= i < rest.len() implies lists(
                #[trigger] before[i],
                rest[i],
            ) by {
                assert(before[i] == entries[i]);
            }
        }
        assert(lists(entries[held.len() - 1], last));
        lemma_listing_is_split(before, rest);
        assert(held =~= rest.push(last));
        lemma_under_push(rest, last);
        if last is Directory {
            lemma_under_push(directories(rest), last);
        }
        assert(directories_in(entries) =~= places(directories(held)));
        assert(files_in(entries).to_multiset().add(under_all(directories(held))) =~= under_all(
            held,
        ));
    }
}

/// A directory expands to every file under it, each once. Whatever was found and whatever is still under
/// the directories left to read stay together the same: reading the next directory moves its files from
/// the one to the other, and leaves its directories to read. So when none is left, what was found is
/// exactly what was under the path the walk began at.
pub proof fn a_walk_finds_every_file(
    left: Seq<Tree>,
    found: Seq<(Seq<char>, usize)>,
    entries: Seq<Entry>,
    held: Seq<Tree>,
)
    requires
        left.len() > 0,
        left.last() matches Tree::Directory { place, held: inside } && inside == held,
        listing(entries, held),
    ensures
        ({
            let after = left.drop_last() + directories(held);
            &&& places(left).drop_last() + directories_in(entries) == places(after)
            &&& (found + files_in(entries)).to_multiset().add(under_all(after))
                == found.to_multiset().add(under_all(left))
        }),
{
    let after = left.drop_last() + directories(held);
    lemma_listing_is_split(entries, held);
    lemma_under_concat(left.drop_last(), directories(held));
    assert(left =~= left.drop_last().push(left.last()));
    lemma_under_push(left.drop_last(), left.last());
    vstd::seq_lib::lemma_multiset_commutative(found, files_in(entries));
    assert(places(left).drop_last() + directories_in(entries) =~= places(after));
    assert((found + files_in(entries)).to_multiset().add(under_all(after)) =~= found.to_multiset().add(
        under_all(left),
    ));
}

/// The depth of the pipeline is never passed, and files are started in order, each once: at every point
/// the files started are the first ones, and no more are under way than the depth.
pub proof fn the_pipeline_is_bounded(sending: Sending)
    requires
        sending.wf(),
    ensures
        sending.inflight() <= MAX_INFLIGHT,
        sending.inflight() <= sending.started() <= sending.total(),
        sending.started() < sending.total() ==> sending.inflight() == MAX_INFLIGHT,
{
}

/// What is shown is bounded whatever the file is named, and the cut never splits an escape: it is the
/// whole escapes of the name's first characters, as many as fit, and a mark exactly where some did not.
pub proof fn a_shown_name_is_bounded_and_whole(parts: Seq<Seq<char>>, room: int) -> (n: int)
    requires
        room >= 0,
    ensures
        0 <= n <= parts.len(),
        text::concat(parts.take(n)).len() <= room,
        n < parts.len() ==> text::concat(parts.take(n + 1)).len() > room,
        capped(parts, room) == text::concat(parts.take(n)) + (if n < parts.len() {
            "..."@
        } else {
            Seq::empty()
        }),
        capped(parts, room).len() <= room + 3,
    decreases parts.len(),
{
    reveal_strlit("...");
    reveal_with_fuel(text::concat, 2);
    if parts.len() == 0 {
        assert(parts.take(0) =~= Seq::<Seq<char>>::empty());
        assert(capped(parts, room) =~= text::concat(parts.take(0)) + Seq::<char>::empty());
        0
    } else if parts[0].len() > room {
        assert(parts.take(0) =~= Seq::<Seq<char>>::empty());
        assert(parts.take(1).drop_last() =~= Seq::<Seq<char>>::empty());
        assert(text::concat(parts.take(1)) =~= parts[0]);
        assert(capped(parts, room) =~= text::concat(parts.take(0)) + "..."@);
        0
    } else {
        let rest = parts.drop_first();
        let left = room - parts[0].len();
        let m = a_shown_name_is_bounded_and_whole(rest, left);
        lemma_concat_front(parts, m + 1);
        assert(parts.take(m + 1).drop_first() =~= rest.take(m));
        if m < rest.len() {
            lemma_concat_front(parts, m + 2);
            assert(parts.take(m + 2).drop_first() =~= rest.take(m + 1));
        }
        assert(capped(parts, room) =~= text::concat(parts.take(m + 1)) + (if m + 1 < parts.len() {
            "..."@
        } else {
            Seq::empty()
        }));
        m + 1
    }
}

/// Nothing of a name is shown raw: a character of what is shown is one of the escape of some character of
/// the name, or a dot of the mark.
pub proof fn only_escapes_are_shown(name: Seq<char>, c: char)
    ensures
        shown(name).contains(c) ==> c == '.' || exists|i: int|
            0 <= i < name.len() && (#[trigger] debug_escape(name[i])).contains(c),
{
    if shown(name).contains(c) {
        let i = lemma_only_parts_are_shown(escapes(name), MAX_RENDERED_NAME as int, c);
        if c != '.' {
            assert(escapes(name)[i] == debug_escape(name[i]));
        }
    }
}

/// The part a shown character is from, unless it is a dot.
proof fn lemma_only_parts_are_shown(parts: Seq<Seq<char>>, room: int, c: char) -> (i: int)
    requires
        capped(parts, room).contains(c),
    ensures
        c == '.' || (0 <= i < parts.len() && parts[i].contains(c)),
    decreases parts.len(),
{
    reveal_strlit("...");
    if parts.len() == 0 || parts[0].len() > room || parts[0].contains(c) {
        0
    } else {
        let rest = parts.drop_first();
        let left = room - parts[0].len();
        let k = choose|k: int| 0 <= k < capped(parts, room).len() && capped(parts, room)[k] == c;
        if k < parts[0].len() {
            assert(parts[0][k] == c);
        } else {
            assert(capped(rest, left)[k - parts[0].len()] == c);
        }
        lemma_only_parts_are_shown(rest, left, c) + 1
    }
}

proof fn lemma_concat_front(parts: Seq<Seq<char>>, n: int)
    requires
        0 < n <= parts.len(),
    ensures
        text::concat(parts.take(n)) == parts[0] + text::concat(parts.take(n).drop_first()),
    decreases n,
{
    let head = parts.take(n);
    if n == 1 {
        assert(head.drop_last() =~= Seq::<Seq<char>>::empty());
        assert(head.drop_first() =~= Seq::<Seq<char>>::empty());
        assert(text::concat(head) =~= parts[0] + text::concat(head.drop_first()));
    } else {
        lemma_concat_front(parts, n - 1);
        assert(head.drop_last() =~= parts.take(n - 1));
        assert(head.drop_first().drop_last() =~= parts.take(n - 1).drop_first());
        assert(head.drop_first().last() == head.last());
        assert(text::concat(head) =~= parts[0] + text::concat(head.drop_first()));
    }
}

/// Each entry of a directory is looked at by itself: a file is picked under its own wire name and at its own
/// place, whatever it is called, a directory is left to read, and anything else is passed over; and entries
/// keep their order.
pub proof fn each_entry_is_looked_at_by_itself(a: Seq<Entry>, b: Seq<Entry>, entry: Entry)
    ensures
        files_in(a + b) == files_in(a) + files_in(b),
        directories_in(a + b) == directories_in(a) + directories_in(b),
        files_in(Seq::<Entry>::empty()).len() == 0,
        directories_in(Seq::<Entry>::empty()).len() == 0,
        entry.kind == Kind::File ==> files_in(seq![entry]) == seq![
            (on_the_wire(entry.relative@), entry.place),
        ] && directories_in(seq![entry]).len() == 0,
        entry.kind == Kind::Directory ==> directories_in(seq![entry]) == seq![entry.place] && files_in(
            seq![entry],
        ).len() == 0,
        entry.kind == Kind::Other ==> directories_in(seq![entry]).len() == 0 && files_in(
            seq![entry],
        ).len() == 0,
    decreases b.len(),
{
    reveal_with_fuel(files_in, 2);
    reveal_with_fuel(directories_in, 2);
    assert(seq![entry].drop_last() =~= Seq::<Entry>::empty());
    if entry.kind == Kind::File {
        assert(files_in(seq![entry]) =~= seq![(on_the_wire(entry.relative@), entry.place)]);
    }
    if entry.kind == Kind::Directory {
        assert(directories_in(seq![entry]) =~= seq![entry.place]);
    }
    if b.len() == 0 {
        assert(a + b =~= a);
        assert(files_in(a) + files_in(b) =~= files_in(a));
        assert(directories_in(a) + directories_in(b) =~= directories_in(a));
    } else {
        assert((a + b).drop_last() =~= a + b.drop_last());
        each_entry_is_looked_at_by_itself(a, b.drop_last(), entry);
        assert(files_in(a + b) =~= files_in(a) + files_in(b));
        assert(directories_in(a + b) =~= directories_in(a) + directories_in(b));
    }
}

/// A name is shown by the escapes of its characters, one for each and in order: all of them where they fit
/// into two hundred and fifty-six characters, and never more than those and the mark.
pub proof fn a_name_is_shown_by_its_escapes(name: Seq<char>)
    ensures
        escapes(name).len() == name.len(),
        forall|i: int| 0 <= i < name.len() ==> #[trigger] escapes(name)[i] == debug_escape(name[i]),
        shown(name).len() <= 256 + 3,
        text::concat(escapes(name)).len() <= 256 ==> shown(name) == text::concat(escapes(name)),
        text::concat(escapes(name)).len() > 256 ==> shown(name).len() >= 3 && shown(name).skip(
            shown(name).len() - 3,
        ) == "..."@,
{
    let parts = escapes(name);
    let n = a_shown_name_is_bounded_and_whole(parts, 256);
    reveal_strlit("...");
    if n == parts.len() {
        assert(parts.take(n) =~= parts);
        assert(shown(name) =~= text::concat(parts));
    } else {
        lemma_more_parts_are_longer(parts, n + 1);
        assert(shown(name).skip(shown(name).len() - 3) =~= "..."@);
    }
}

proof fn lemma_more_parts_are_longer(parts: Seq<Seq<char>>, n: int)
    requires
        0 <= n <= parts.len(),
    ensures
        text::concat(parts.take(n)).len() <= text::concat(parts).len(),
{
    assert(parts =~= parts.take(n) + parts.skip(n));
    text::a_row_of_texts_parts_anywhere(parts.take(n), parts.skip(n), Seq::empty());
}

/// At most sixteen files are under way at once.
pub proof fn sixteen_files_are_the_most(sending: Sending)
    requires
        sending.wf(),
    ensures
        sending.inflight() <= 16,
        sending.started() < sending.total() ==> sending.inflight() == 16,
{
}

} // verus!
