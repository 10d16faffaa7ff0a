//! What a node serves: the route table a serve declares, described name by name and grouped by who may
//! reach each service, as the `serving` section of the readiness banner shows it.

use vstd::prelude::*;
use vstd::string::StrSliceExecFns;
use vstd::string::StringExecFns;

use crate::text;

verus! {

broadcast use {vstd::seq::group_seq_axioms, vstd::string::group_string_axioms};

/// The route every serve binds for its signed roster.
pub const ROSTER_SERVICE: &'static str = "roster";

/// The route every serve binds to be stopped by.
pub const CONTROL_STOP_SERVICE: &'static str = "control.stop";

/// The route every serve binds to list what it serves.
pub const CONTROL_SERVICES_SERVICE: &'static str = "control.services";

/// Whether a service is behind the family gate or open to anyone.
#[derive(Debug, Clone, Copy, PartialEq, Eq, Structural)]
pub enum Posture {
    Gated,
    Open,
}

/// What a route is bound to: a handler, or a raw stream of bytes.
#[derive(Debug, Clone, Copy, PartialEq, Eq, Structural)]
pub enum TargetKind {
    Handler,
    RawStream,
}

/// Whether a handler caps what a caller may draw.
#[derive(Debug, Clone, Copy, PartialEq, Eq, Structural)]
pub enum Metering {
    Metered,
    Unmetered,
}

/// Where the bytes of a raw stream come from.
#[derive(Debug)]
pub enum RawSource {
    /// A file or a pipe, by its absolute path.
    Path(String),
    /// This process's own stdin.
    Stdin,
}

/// One served route, as the exposer declares it.
#[derive(Debug)]
pub struct ManifestEntry {
    pub name: String,
    pub posture: Posture,
    pub kind: TargetKind,
    pub metering: Option<Metering>,
    pub raw_source: Option<RawSource>,
}

/// The group a served service is shown under, safest first.
#[derive(Debug, Clone, Copy, PartialEq, Eq, Structural)]
pub enum Group {
    FamilyGated,
    Public,
    PublicUnsafe,
}

impl Group {
    /// How loud the group is: the place it takes in the section.
    pub open spec fn weight(self) -> int {
        match self {
            Group::FamilyGated => 0,
            Group::Public => 1,
            Group::PublicUnsafe => 2,
        }
    }

    /// The group of a route: gated is family-gated whatever it serves, an open raw stream is the loudest,
    /// and every other open service is public.
    pub open spec fn group_of(posture: Posture, kind: TargetKind) -> Group {
        match (posture, kind) {
            (Posture::Gated, _) => Group::FamilyGated,
            (Posture::Open, TargetKind::RawStream) => Group::PublicUnsafe,
            (Posture::Open, TargetKind::Handler) => Group::Public,
        }
    }

    /// The group `entry` is shown under.
    pub fn of(entry: &ManifestEntry) -> (group: Self)
        ensures
            group == Group::group_of(entry.posture, entry.kind),
    {
        match (entry.posture, entry.kind) {
            (Posture::Gated, _) => Group::FamilyGated,
            (Posture::Open, TargetKind::RawStream) => Group::PublicUnsafe,
            (Posture::Open, TargetKind::Handler) => Group::Public,
        }
    }

    /// The name of the group, carrying its danger marker.
    pub open spec fn title(self) -> Seq<char> {
        match self {
            Group::FamilyGated => "family-gated"@,
            Group::Public => "public !"@,
            Group::PublicUnsafe => "public-UNSAFE !!"@,
        }
    }

    /// Who may reach the services of the group.
    pub open spec fn audience(self) -> Seq<char> {
        match self {
            Group::FamilyGated => "your devices + peers you've granted"@,
            Group::Public => "anyone, unauthenticated"@,
            Group::PublicUnsafe => "raw bytes to anyone who connects"@,
        }
    }

    /// The header the group renders: its name and its audience.
    pub fn header(self) -> (header: (&'static str, &'static str))
        ensures
            header.0@ == self.title(),
            header.1@ == self.audience(),
    {
        match self {
            Group::FamilyGated => ("family-gated", "your devices + peers you've granted"),
            Group::Public => ("public !", "anyone, unauthenticated"),
            Group::PublicUnsafe => ("public-UNSAFE !!", "raw bytes to anyone who connects"),
        }
    }
}

/// The target each served name points at. A name given twice points at the later target.
#[derive(Debug)]
pub struct Targets {
    pairs: Vec<(String, String)>,
}

spec fn map_of(pairs: Seq<(String, String)>) -> Map<Seq<char>, Seq<char>>
    decreases pairs.len(),
{
    if pairs.len() == 0 {
        Map::empty()
    } else {
        map_of(pairs.drop_last()).insert(pairs.last().0@, pairs.last().1@)
    }
}

impl View for Targets {
    type V = Map<Seq<char>, Seq<char>>;

    closed spec fn view(&self) -> Map<Seq<char>, Seq<char>> {
        map_of(self.pairs@)
    }
}

impl Targets {
    /// No name points anywhere.
    pub fn new() -> (targets: Targets)
        ensures
            targets@ == Map::<Seq<char>, Seq<char>>::empty(),
    {
        Targets { pairs: Vec::new() }
    }

    /// Point `name` at `addr`.
    pub fn insert(&mut self, name: String, addr: String)
        ensures
            final(self)@ == old(self)@.insert(name@, addr@),
    {
        self.pairs.push((name, addr));
        assert(self.pairs@.drop_last() =~= old(self).pairs@);
    }

    /// The target of `name`, or the empty text.
    pub fn get(&self, name: &str) -> (addr: String)
        ensures
            addr@ == target(self@, name@),
    {
        let mut i: usize = self.pairs.len();
        assert(self.pairs@.take(i as int) =~= self.pairs@);
        while i > 0
            invariant
                i <= self.pairs.len(),
                target(self@, name@) == target(map_of(self.pairs@.take(i as int)), name@),
            decreases i,
        {
            assert(self.pairs@.take(i as int).drop_last() =~= self.pairs@.take(i - 1));
            if text::same(self.pairs[i - 1].0.as_str(), name) {
                return self.pairs[i - 1].1.clone();
            }
            i = i - 1;
        }
        String::new()
    }
}

/// The target of `name`, or the empty text where it has none.
pub open spec fn target(targets: Map<Seq<char>, Seq<char>>, name: Seq<char>) -> Seq<char> {
    if targets.dom().contains(name) {
        targets[name]
    } else {
        Seq::empty()
    }
}

/// Whether the entry is `name=target`.
pub open spec fn is_named(entry: Seq<char>) -> bool {
    entry.contains('=')
}

/// The targets of the `name=target` entries: each name up to the first `=`, its target behind it.
pub open spec fn targets_of(entries: Seq<Seq<char>>) -> Map<Seq<char>, Seq<char>>
    decreases entries.len(),
{
    if entries.len() == 0 {
        Map::empty()
    } else {
        let halves = text::split_first(entries.last(), '=')->0;
        targets_of(entries.drop_last()).insert(halves.0, halves.1)
    }
}

/// What a bare entry is answered.
pub open spec fn bare_entry_message(entry: Seq<char>) -> Seq<char> {
    "`"@ + entry
        + "` names no service. Every serve entry must be `name=target`, e.g. `ping=ping:`, `web=tcp:127.0.0.1:8080`"@
}

/// The line that refuses a bare entry.
pub fn bare_entry_line(entry: &str) -> (line: String)
    ensures
        line@ == bare_entry_message(entry@),
{
    let mut line = "`".to_owned();
    line.append(entry);
    line.append(
        "` names no service. Every serve entry must be `name=target`, e.g. `ping=ping:`, `web=tcp:127.0.0.1:8080`",
    );
    line
}

/// The `name -> target` map of the requested entries. The first entry without a `=` is refused.
pub fn display_targets(requested: &Vec<String>) -> (shown: Result<Targets, String>)
    ensures
        match shown {
            Ok(targets) => (forall|i: int|
                0 <= i < requested@.len() ==> is_named((#[trigger] requested@[i])@)) && targets@
                == targets_of(text::texts(requested@)),
            Err(message) => exists|i: int|
                0 <= i < requested@.len() && !is_named((#[trigger] requested@[i])@) && message@
                    == bare_entry_message(requested@[i]@) && forall|j: int|
                    0 <= j < i ==> is_named((#[trigger] requested@[j])@),
        },
{
    let mut targets = Targets::new();
    let mut i: usize = 0;
    assert(text::texts(requested@).take(0) =~= Seq::<Seq<char>>::empty());
    while i < requested.len()
        invariant
            i <= requested.len(),
            forall|j: int| 0 <= j < i ==> is_named((#[trigger] requested@[j])@),
            targets@ == targets_of(text::texts(requested@).take(i as int)),
        decreases requested.len() - i,
    {
        match text::split_once(requested[i].as_str(), '=') {
            Some((name, addr)) => {
                targets.insert(name, addr);
                assert(text::texts(requested@).take(i + 1).drop_last() =~= text::texts(
                    requested@,
                ).take(i as int));
            },
            None => {
                return Err(bare_entry_line(requested[i].as_str()));
            },
        }
        i = i + 1;
    }
    assert(text::texts(requested@).take(i as int) =~= text::texts(requested@));
    Ok(targets)
}

/// Whether the target is a local forward: `tcp:<host>:<port>` or `unix:<path>`.
pub open spec fn forwards(addr: Seq<char>) -> bool {
    text::begins(addr, "tcp:"@) || text::begins(addr, "unix:"@)
}

/// Whether the typed target is a local forward rather than a named engine.
pub fn is_forward(addr: &str) -> (yes: bool)
    ensures
        yes == forwards(addr@),
{
    text::starts_with(addr, "tcp:") || text::starts_with(addr, "unix:")
}

/// What a named engine does.
pub open spec fn engine_gloss(scheme: Seq<char>) -> Seq<char> {
    if scheme == "ping"@ {
        "round-trip probe"@
    } else if scheme == "speed"@ {
        "throughput test"@
    } else if scheme == "sshd"@ {
        "a shell on this machine"@
    } else if scheme == "recv"@ {
        "receives pushed files"@
    } else {
        scheme + " service"@
    }
}

/// The gloss of a named engine's scheme. A scheme nothing names still renders a line.
pub fn handler_gloss(scheme: &str) -> (gloss: String)
    ensures
        gloss@ == engine_gloss(scheme@),
{
    if text::same(scheme, "ping") {
        "round-trip probe".to_owned()
    } else if text::same(scheme, "speed") {
        "throughput test".to_owned()
    } else if text::same(scheme, "sshd") {
        "a shell on this machine".to_owned()
    } else if text::same(scheme, "recv") {
        "receives pushed files".to_owned()
    } else {
        let mut gloss = scheme.to_owned();
        gloss.append(" service");
        gloss
    }
}

/// A name and where it points.
pub open spec fn arrow(name: Seq<char>, to: Seq<char>) -> Seq<char> {
    name + " -> "@ + to
}

/// The label and the gloss of one service. A fetch is named alone. A handler is the reflector, a local
/// forward, or a named engine, which is named alone where its name is its scheme. A raw stream shows its
/// typed target, and an open one names the bytes at risk.
pub open spec fn description(
    entry: ManifestEntry,
    targets: Map<Seq<char>, Seq<char>>,
    fetch_names: Seq<Seq<char>>,
) -> (Seq<char>, Seq<char>) {
    let name = entry.name@;
    let addr = target(targets, name);
    let scheme = text::without_last(addr, ':');
    if fetch_names.contains(name) {
        (name, "fetches URLs for callers"@)
    } else if entry.kind == TargetKind::RawStream {
        (
            arrow(name, addr),
            match (entry.posture, entry.raw_source) {
                (Posture::Open, Some(RawSource::Path(path))) => "serving the raw bytes of "@ + path@
                    + " to anyone, no auth"@,
                (
                    Posture::Open,
                    Some(RawSource::Stdin),
                ) => "serving this process's piped stdin to anyone, no auth"@,
                _ => "streams raw bytes to any caller, no auth"@,
            },
        )
    } else if addr == "echo:"@ {
        (name, "echoes your bytes back to you"@)
    } else if forwards(addr) {
        (arrow(name, addr), "local TCP service"@)
    } else if name == scheme {
        (name, engine_gloss(scheme))
    } else {
        (arrow(name, scheme), engine_gloss(scheme))
    }
}

fn arrow_text(name: &str, to: &str) -> (label: String)
    ensures
        label@ == arrow(name@, to@),
{
    let mut label = name.to_owned();
    label.append(" -> ");
    label.append(to);
    label
}

/// The label and the gloss of one service.
pub fn describe(entry: &ManifestEntry, targets: &Targets, fetch_names: &Vec<String>) -> (shown: (
    String,
    String,
))
    ensures
        (shown.0@, shown.1@) == description(*entry, targets@, text::texts(fetch_names@)),
{
    let name = entry.name.as_str();
    if text::holds(fetch_names, name) {
        return (name.to_owned(), "fetches URLs for callers".to_owned());
    }
    let addr = targets.get(name);
    match entry.kind {
        TargetKind::Handler => {
            if text::same(addr.as_str(), "echo:") {
                return (name.to_owned(), "echoes your bytes back to you".to_owned());
            }
            if is_forward(addr.as_str()) {
                return (arrow_text(name, addr.as_str()), "local TCP service".to_owned());
            }
            let scheme = text::strip_last(addr.as_str(), ':');
            let label = if text::same(name, scheme) {
                name.to_owned()
            } else {
                arrow_text(name, scheme)
            };
            (label, handler_gloss(scheme))
        },
        TargetKind::RawStream => {
            let gloss = match (entry.posture, &entry.raw_source) {
                (Posture::Open, Some(RawSource::Path(path))) => {
                    let mut gloss = "serving the raw bytes of ".to_owned();
                    gloss.append(path.as_str());
                    gloss.append(" to anyone, no auth");
                    gloss
                },
                (
                    Posture::Open,
                    Some(RawSource::Stdin),
                ) => "serving this process's piped stdin to anyone, no auth".to_owned(),
                _ => "streams raw bytes to any caller, no auth".to_owned(),
            };
            (arrow_text(name, addr.as_str()), gloss)
        },
    }
}

/// One service row: its label, its gloss, and whether it carries the unmetered caveat.
#[derive(Debug)]
pub struct ServiceRow {
    pub label: String,
    pub gloss: String,
    pub unmetered: bool,
}

/// A service row as a value.
pub ghost struct ServiceRowView {
    pub label: Seq<char>,
    pub gloss: Seq<char>,
    pub unmetered: bool,
}

impl View for ServiceRow {
    type V = ServiceRowView;

    open spec fn view(&self) -> ServiceRowView {
        ServiceRowView { label: self.label@, gloss: self.gloss@, unmetered: self.unmetered }
    }
}

/// The rows, as values.
pub open spec fn row_views(rows: Seq<ServiceRow>) -> Seq<ServiceRowView> {
    rows.map_values(|r: ServiceRow| r@)
}

/// Whether the route is node plumbing: a `control.` route or the roster.
pub open spec fn is_plumbing(name: Seq<char>) -> bool {
    text::begins(name, "control."@) || name == ROSTER_SERVICE@
}

/// The row of one route.
pub open spec fn row_of(
    entry: ManifestEntry,
    targets: Map<Seq<char>, Seq<char>>,
    fetch_names: Seq<Seq<char>>,
) -> ServiceRowView {
    let shown = description(entry, targets, fetch_names);
    ServiceRowView {
        label: shown.0,
        gloss: shown.1,
        unmetered: entry.posture == Posture::Open && entry.metering == Some(Metering::Unmetered),
    }
}

/// Whether the route is shown on a row of its own in `group`.
pub open spec fn shown_in(entry: ManifestEntry, group: Group) -> bool {
    !is_plumbing(entry.name@) && Group::group_of(entry.posture, entry.kind) == group
}

/// The rows of the routes shown in `group`, in manifest order.
pub open spec fn service_rows(
    manifest: Seq<ManifestEntry>,
    targets: Map<Seq<char>, Seq<char>>,
    fetch_names: Seq<Seq<char>>,
    group: Group,
) -> Seq<ServiceRowView>
    decreases manifest.len(),
{
    if manifest.len() == 0 {
        Seq::empty()
    } else {
        let rest = service_rows(manifest.drop_last(), targets, fetch_names, group);
        if shown_in(manifest.last(), group) {
            rest.push(row_of(manifest.last(), targets, fetch_names))
        } else {
            rest
        }
    }
}

/// Whether the manifest holds node plumbing.
pub open spec fn has_plumbing(manifest: Seq<ManifestEntry>) -> bool {
    exists|i: int| 0 <= i < manifest.len() && is_plumbing((#[trigger] manifest[i]).name@)
}

/// The one row all node plumbing folds to.
pub open spec fn control_row() -> ServiceRowView {
    ServiceRowView {
        label: "control.*"@,
        gloss: "node control (never public)"@,
        unmetered: false,
    }
}

/// The rows of `group`: its services, and for the family gate the plumbing below them.
pub open spec fn group_rows(
    manifest: Seq<ManifestEntry>,
    targets: Map<Seq<char>, Seq<char>>,
    fetch_names: Seq<Seq<char>>,
    group: Group,
) -> Seq<ServiceRowView> {
    let services = service_rows(manifest, targets, fetch_names, group);
    if group == Group::FamilyGated && has_plumbing(manifest) {
        services.push(control_row())
    } else {
        services
    }
}

/// The widest label of the rows, in bytes.
pub open spec fn widest_label(rows: Seq<ServiceRowView>) -> nat
    decreases rows.len(),
{
    if rows.len() == 0 {
        0
    } else {
        let rest = widest_label(rows.drop_last());
        let bytes = vstd::utf8::encode_utf8(rows.last().label).len();
        if bytes > rest {
            bytes
        } else {
            rest
        }
    }
}

/// One row as it is printed: the label at the fourth column, filled three past the widest one, the gloss,
/// and the quiet caveat of a service that a stranger can drain.
pub open spec fn service_line(widest: nat, row: ServiceRowView) -> Seq<char> {
    text::padded("    "@ + row.label, 4 + widest + 3) + row.gloss + (if row.unmetered {
        "   unmetered: a stranger can drain your uplink"@
    } else {
        Seq::empty()
    }) + "\n"@
}

/// The rows as they are printed.
pub open spec fn service_lines(widest: nat, rows: Seq<ServiceRowView>) -> Seq<char>
    decreases rows.len(),
{
    if rows.len() == 0 {
        Seq::empty()
    } else {
        service_lines(widest, rows.drop_last()) + service_line(widest, rows.last())
    }
}

/// A group as it is printed: its header, then its rows; a group with no row is left out.
pub open spec fn group_text(group: Group, rows: Seq<ServiceRowView>) -> Seq<char> {
    if rows.len() == 0 {
        Seq::empty()
    } else {
        "  "@ + group.title() + "   "@ + group.audience() + "\n"@ + service_lines(
            widest_label(rows),
            rows,
        )
    }
}

/// The whole section, safest group first.
pub open spec fn section(
    manifest: Seq<ManifestEntry>,
    targets: Map<Seq<char>, Seq<char>>,
    fetch_names: Seq<Seq<char>>,
) -> Seq<char> {
    "serving\n"@ + group_text(
        Group::FamilyGated,
        group_rows(manifest, targets, fetch_names, Group::FamilyGated),
    ) + group_text(Group::Public, group_rows(manifest, targets, fetch_names, Group::Public))
        + group_text(
        Group::PublicUnsafe,
        group_rows(manifest, targets, fetch_names, Group::PublicUnsafe),
    )
}

fn plumbing(name: &str) -> (yes: bool)
    ensures
        yes == is_plumbing(name@),
{
    text::starts_with(name, "control.") || text::same(name, ROSTER_SERVICE)
}

fn rows_of(
    manifest: &Vec<ManifestEntry>,
    targets: &Targets,
    fetch_names: &Vec<String>,
    group: Group,
) -> (rows: Vec<ServiceRow>)
    ensures
        row_views(rows@) == group_rows(manifest@, targets@, text::texts(fetch_names@), group),
{
    let mut rows: Vec<ServiceRow> = Vec::new();
    let mut control: bool = false;
    let ghost fetched = text::texts(fetch_names@);
    let mut i: usize = 0;
    while i < manifest.len()
        invariant
            i <= manifest.len(),
            fetched == text::texts(fetch_names@),
            row_views(rows@) == service_rows(manifest@.take(i as int), targets@, fetched, group),
            control == has_plumbing(manifest@.take(i as int)),
        decreases manifest.len() - i,
    {
        let entry = &manifest[i];
        proof {
            assert(manifest@.take(i + 1).drop_last() =~= manifest@.take(i as int));
            if has_plumbing(manifest@.take(i as int)) {
                let k = choose|k: int|
                    0 <= k < manifest@.take(i as int).len() && is_plumbing(
                        (#[trigger] manifest@.take(i as int)[k]).name@,
                    );
                assert(manifest@.take(i + 1)[k] == manifest@.take(i as int)[k]);
            }
            if has_plumbing(manifest@.take(i + 1)) && !is_plumbing(entry.name@) {
                let k = choose|k: int|
                    0 <= k < manifest@.take(i + 1).len() && is_plumbing(
                        (#[trigger] manifest@.take(i + 1)[k]).name@,
                    );
                assert(manifest@.take(i as int)[k] == manifest@.take(i + 1)[k]);
            }
            if is_plumbing(entry.name@) {
                assert(is_plumbing(manifest@.take(i + 1)[i as int].name@));
            }
        }
        if plumbing(entry.name.as_str()) {
            control = true;
        } else if Group::of(entry) == group {
            let (label, gloss) = describe(entry, targets, fetch_names);
            let unmetered: bool = entry.posture == Posture::Open && match entry.metering {
                Some(Metering::Unmetered) => true,
                _ => false,
            };
            let ghost before = rows@;
            rows.push(ServiceRow { label, gloss, unmetered });
            assert(row_views(rows@) =~= row_views(before).push(
                row_of(*entry, targets@, fetched),
            ));
        }
        i = i + 1;
    }
    assert(manifest@.take(i as int) =~= manifest@);
    if control && group == Group::FamilyGated {
        let ghost before = rows@;
        rows.push(
            ServiceRow {
                label: "control.*".to_owned(),
                gloss: "node control (never public)".to_owned(),
                unmetered: false,
            },
        );
        assert(row_views(rows@) =~= row_views(before).push(control_row()));
    }
    rows
}

/// The length of `s` in bytes.
fn byte_len(s: &str) -> (n: usize)
    ensures
        n == vstd::utf8::encode_utf8(s@).len(),
{
    s.as_bytes().len()
}

fn widest_of(rows: &Vec<ServiceRow>) -> (widest: usize)
    ensures
        widest == widest_label(row_views(rows@)),
        forall|i: int|
            0 <= i < rows@.len() ==> vstd::utf8::encode_utf8((#[trigger] rows@[i]).label@).len()
                <= widest,
{
    let mut widest: usize = 0;
    let mut i: usize = 0;
    while i < rows.len()
        invariant
            i <= rows.len(),
            widest == widest_label(row_views(rows@).take(i as int)),
            forall|j: int|
                0 <= j < i ==> vstd::utf8::encode_utf8((#[trigger] rows@[j]).label@).len()
                    <= widest,
        decreases rows.len() - i,
    {
        let n: usize = byte_len(rows[i].label.as_str());
        assert(row_views(rows@).take(i + 1).drop_last() =~= row_views(rows@).take(i as int));
        if n > widest {
            widest = n;
        }
        i = i + 1;
    }
    assert(row_views(rows@).take(i as int) =~= row_views(rows@));
    widest
}

fn push_service_line(out: &mut String, widest: usize, row: &ServiceRow)
    requires
        vstd::utf8::encode_utf8(row.label@).len() <= widest,
    ensures
        final(out)@ == old(out)@ + service_line(widest as nat, row@),
{
    proof {
        text::lemma_bytes_cover_characters(row.label@);
        reveal_strlit("    ");
        reveal_strlit("   ");
    }
    let n: usize = row.label.as_str().unicode_len();
    out.append("    ");
    out.append(row.label.as_str());
    text::push_spaces(out, widest - n);
    out.append("   ");
    assert(out@ =~= old(out)@ + text::padded("    "@ + row.label@, 4 + widest as nat + 3));
    out.append(row.gloss.as_str());
    if row.unmetered {
        out.append("   unmetered: a stranger can drain your uplink");
    } else {
        assert(out@ =~= out@ + Seq::<char>::empty());
    }
    out.append("\n");
    assert(out@ =~= old(out)@ + service_line(widest as nat, row@));
}

fn push_group(out: &mut String, group: Group, rows: &Vec<ServiceRow>)
    ensures
        final(out)@ == old(out)@ + group_text(group, row_views(rows@)),
{
    if rows.len() == 0 {
        assert(out@ =~= old(out)@ + group_text(group, row_views(rows@)));
        return ;
    }
    let (title, audience) = group.header();
    out.append("  ");
    out.append(title);
    out.append("   ");
    out.append(audience);
    out.append("\n");
    let ghost head = out@;
    let ghost all = row_views(rows@);
    let widest: usize = widest_of(rows);
    let mut i: usize = 0;
    assert(out@ =~= head + service_lines(widest as nat, all.take(0)));
    while i < rows.len()
        invariant
            i <= rows.len(),
            all == row_views(rows@),
            forall|j: int|
                0 <= j < rows@.len() ==> vstd::utf8::encode_utf8(
                    (#[trigger] rows@[j]).label@,
                ).len() <= widest,
            out@ == head + service_lines(widest as nat, all.take(i as int)),
        decreases rows.len() - i,
    {
        push_service_line(out, widest, &rows[i]);
        assert(all.take(i + 1).drop_last() =~= all.take(i as int));
        assert(all.take(i + 1).last() == rows@[i as int]@);
        assert(out@ =~= head + service_lines(widest as nat, all.take(i + 1)));
        i = i + 1;
    }
    assert(all.take(i as int) =~= all);
    assert(out@ =~= old(out)@ + group_text(group, all));
}

/// The `serving` section: services grouped by posture, safest first, empty groups left out.
pub fn serving_section(
    manifest: &Vec<ManifestEntry>,
    targets: &Targets,
    fetch_names: &Vec<String>,
) -> (out: String)
    ensures
        out@ == section(manifest@, targets@, text::texts(fetch_names@)),
{
    let mut out = "serving\n".to_owned();
    push_group(
        &mut out,
        Group::FamilyGated,
        &rows_of(manifest, targets, fetch_names, Group::FamilyGated),
    );
    push_group(
        &mut out,
        Group::Public,
        &rows_of(manifest, targets, fetch_names, Group::Public),
    );
    push_group(
        &mut out,
        Group::PublicUnsafe,
        &rows_of(manifest, targets, fetch_names, Group::PublicUnsafe),
    );
    out
}

/// The danger weight of a route is monotonic: opening a route never moves it to a quieter group, and an
/// open raw stream is louder than any other open service.
pub proof fn opening_never_quiets(kind: TargetKind)
    ensures
        Group::group_of(Posture::Gated, kind).weight() < Group::group_of(
            Posture::Open,
            kind,
        ).weight(),
        Group::group_of(Posture::Open, TargetKind::Handler).weight() < Group::group_of(
            Posture::Open,
            TargetKind::RawStream,
        ).weight(),
{
}

/// The routes a node binds for itself are plumbing: they fold to the control row, and none is listed as a
/// service of its own.
pub proof fn the_nodes_own_routes_are_plumbing()
    ensures
        is_plumbing(ROSTER_SERVICE@),
        is_plumbing(CONTROL_STOP_SERVICE@),
        is_plumbing(CONTROL_SERVICES_SERVICE@),
{
    reveal_strlit("control.");
    reveal_strlit("control.stop");
    reveal_strlit("control.services");
    assert(CONTROL_STOP_SERVICE@.subrange(0, 8) =~= "control."@);
    assert(CONTROL_SERVICES_SERVICE@.subrange(0, 8) =~= "control."@);
}

/// Every route of the manifest is accounted for: it is plumbing, or it has a row in exactly one group.
pub proof fn every_route_is_shown_once(entry: ManifestEntry, a: Group, b: Group)
    ensures
        !is_plumbing(entry.name@) ==> shown_in(
            entry,
            Group::group_of(entry.posture, entry.kind),
        ),
        shown_in(entry, a) && shown_in(entry, b) ==> a == b,
        is_plumbing(entry.name@) ==> !shown_in(entry, a),
{
}

/// As many rows as routes: the rows of the three groups together count every route that is not plumbing,
/// and the plumbing, however many routes it has, folds to one row.
pub proof fn the_section_counts_every_route(
    manifest: Seq<ManifestEntry>,
    targets: Map<Seq<char>, Seq<char>>,
    fetch_names: Seq<Seq<char>>,
)
    ensures
        group_rows(manifest, targets, fetch_names, Group::FamilyGated).len() + group_rows(
            manifest,
            targets,
            fetch_names,
            Group::Public,
        ).len() + group_rows(manifest, targets, fetch_names, Group::PublicUnsafe).len()
            == manifest.filter(|e: ManifestEntry| !is_plumbing(e.name@)).len() + if has_plumbing(
            manifest,
        ) {
            1nat
        } else {
            0
        },
{
    lemma_counted(manifest, targets, fetch_names);
}

proof fn lemma_counted(
    manifest: Seq<ManifestEntry>,
    targets: Map<Seq<char>, Seq<char>>,
    fetch_names: Seq<Seq<char>>,
)
    ensures
        service_rows(manifest, targets, fetch_names, Group::FamilyGated).len() + service_rows(
            manifest,
            targets,
            fetch_names,
            Group::Public,
        ).len() + service_rows(manifest, targets, fetch_names, Group::PublicUnsafe).len()
            == manifest.filter(|e: ManifestEntry| !is_plumbing(e.name@)).len(),
    decreases manifest.len(),
{
    reveal(Seq::filter);
    if manifest.len() > 0 {
        lemma_counted(manifest.drop_last(), targets, fetch_names);
    }
}

/// Nothing is said to be open to anyone where nothing is open: without an open route the two public
/// groups are empty, so the section is the family gate alone.
pub proof fn a_gated_node_shows_no_public_group(
    manifest: Seq<ManifestEntry>,
    targets: Map<Seq<char>, Seq<char>>,
    fetch_names: Seq<Seq<char>>,
)
    requires
        forall|i: int|
            0 <= i < manifest.len() ==> (#[trigger] manifest[i]).posture == Posture::Gated,
    ensures
        section(manifest, targets, fetch_names) == "serving\n"@ + group_text(
            Group::FamilyGated,
            group_rows(manifest, targets, fetch_names, Group::FamilyGated),
        ),
{
    lemma_none_shown(manifest, targets, fetch_names, Group::Public);
    lemma_none_shown(manifest, targets, fetch_names, Group::PublicUnsafe);
    assert(section(manifest, targets, fetch_names) =~= "serving\n"@ + group_text(
        Group::FamilyGated,
        group_rows(manifest, targets, fetch_names, Group::FamilyGated),
    ));
}

proof fn lemma_none_shown(
    manifest: Seq<ManifestEntry>,
    targets: Map<Seq<char>, Seq<char>>,
    fetch_names: Seq<Seq<char>>,
    group: Group,
)
    requires
        forall|i: int| 0 <= i < manifest.len() ==> !shown_in(#[trigger] manifest[i], group),
    ensures
        service_rows(manifest, targets, fetch_names, group).len() == 0,
    decreases manifest.len(),
{
    if manifest.len() > 0 {
        let rest = manifest.drop_last();
        assert forall|i: int| 0 <= i < rest.len() implies !shown_in(#[trigger] rest[i], group) by {
            assert(rest[i] == manifest[i]);
        }
        lemma_none_shown(rest, targets, fetch_names, group);
        assert(!shown_in(manifest[manifest.len() - 1], group));
    }
}

/// A route is shown under who may reach it: what is gated is family-gated whatever it serves, and what is
/// open is public, and unsafe exactly where it is a raw stream; and each group is told by its own name and
/// audience.
pub proof fn a_route_is_shown_under_who_may_reach_it(posture: Posture, kind: TargetKind)
    ensures
        Group::group_of(posture, kind) == Group::FamilyGated <==> posture == Posture::Gated,
        Group::group_of(posture, kind) == Group::PublicUnsafe <==> posture == Posture::Open && kind
            == TargetKind::RawStream,
        Group::group_of(posture, kind) == Group::Public <==> posture == Posture::Open && kind
            == TargetKind::Handler,
        Group::FamilyGated.title() == "family-gated"@,
        Group::Public.title() == "public !"@,
        Group::PublicUnsafe.title() == "public-UNSAFE !!"@,
        Group::FamilyGated.audience() == "your devices + peers you've granted"@,
        Group::Public.audience() == "anyone, unauthenticated"@,
        Group::PublicUnsafe.audience() == "raw bytes to anyone who connects"@,
{
}

/// A name points at the target behind its first `=`, the later one where it is given twice; and no other
/// name is touched.
pub proof fn a_name_points_where_it_was_last_put(
    entries: Seq<Seq<char>>,
    name: Seq<char>,
    to: Seq<char>,
    other: Seq<char>,
)
    requires
        !name.contains('='),
    ensures
        target(targets_of(entries.push(name + seq!['='] + to)), name) == to,
        other != name ==> target(targets_of(entries.push(name + seq!['='] + to)), other) == target(
            targets_of(entries),
            other,
        ),
        target(targets_of(Seq::<Seq<char>>::empty()), other).len() == 0,
        is_named(name + seq!['='] + to),
        !is_named(name),
        text::mentions(bare_entry_message(name), "`"@ + name + "`"@),
{
    let entry = name + seq!['='] + to;
    text::a_cut_undoes_a_join(name, '=', to);
    assert(entries.push(entry).drop_last() =~= entries);
    assert(entry[name.len() as int] == '=');
    let rest =
        "` names no service. Every serve entry must be `name=target`, e.g. `ping=ping:`, `web=tcp:127.0.0.1:8080`"@;
    reveal_strlit("`");
    reveal_strlit(
        "` names no service. Every serve entry must be `name=target`, e.g. `ping=ping:`, `web=tcp:127.0.0.1:8080`",
    );
    assert(rest =~= "`"@ + rest.skip(1));
    assert("`"@ + name + rest =~= ("`"@ + name + "`"@) + rest.skip(1));
    text::lemma_mentions(Seq::empty(), "`"@ + name + "`"@, rest.skip(1));
}

/// A forward is a target that begins with `tcp:` or `unix:`, whatever follows; and an engine is glossed by
/// its scheme, one that nothing names under its own name.
pub proof fn a_target_is_told_by_its_scheme(rest: Seq<char>, scheme: Seq<char>)
    ensures
        forwards("tcp:"@ + rest),
        forwards("unix:"@ + rest),
        scheme.len() > 0 && scheme[0] != 't' && scheme[0] != 'u' ==> !forwards(scheme),
        engine_gloss("ping"@) == "round-trip probe"@,
        engine_gloss("speed"@) == "throughput test"@,
        engine_gloss("sshd"@) == "a shell on this machine"@,
        engine_gloss("recv"@) == "receives pushed files"@,
        scheme != "ping"@ && scheme != "speed"@ && scheme != "sshd"@ && scheme != "recv"@
            ==> engine_gloss(scheme) == scheme + " service"@,
{
    reveal_strlit("tcp:");
    reveal_strlit("unix:");
    reveal_strlit("ping");
    reveal_strlit("speed");
    reveal_strlit("sshd");
    reveal_strlit("recv");
    text::a_prefix_comes_off_as_it_went_on("tcp:"@, rest, Seq::empty());
    text::a_prefix_comes_off_as_it_went_on("unix:"@, rest, Seq::empty());
    if text::begins(scheme, "tcp:"@) {
        assert(scheme.subrange(0, "tcp:"@.len() as int)[0] == 't');
    }
    if text::begins(scheme, "unix:"@) {
        assert(scheme.subrange(0, "unix:"@.len() as int)[0] == 'u');
    }
    assert("speed"@.len() != "ping"@.len());
    assert("sshd"@[0] != "ping"@[0]);
    assert("recv"@[0] != "ping"@[0]);
    assert("recv"@[0] != "sshd"@[0]);
}

/// A service is described by what it serves: a fetch is named alone; a raw stream shows where it points, and
/// an open one the bytes at risk; a handler is the reflector, a forward shown with its target, or an engine,
/// named alone exactly where its name is its scheme.
pub proof fn a_service_is_described_by_what_it_serves(
    entry: ManifestEntry,
    targets: Map<Seq<char>, Seq<char>>,
    fetch_names: Seq<Seq<char>>,
    scheme: Seq<char>,
)
    ensures
        ({
            let name = entry.name@;
            let addr = target(targets, name);
            let shown = description(entry, targets, fetch_names);
            &&& fetch_names.contains(name) ==> shown == (name, "fetches URLs for callers"@)
            &&& !fetch_names.contains(name) && entry.kind == TargetKind::RawStream ==> shown.0 == name
                + " -> "@ + addr && (entry.posture == Posture::Open ==> (entry.raw_source matches Some(
                RawSource::Path(path),
            ) ==> text::mentions(shown.1, path@ + " to anyone, no auth"@))) && ((entry.posture
                == Posture::Open && (entry.raw_source matches Some(RawSource::Stdin))) ==> shown.1
                == "serving this process's piped stdin to anyone, no auth"@) && (entry.posture
                == Posture::Gated || entry.raw_source is None ==> shown.1
                == "streams raw bytes to any caller, no auth"@)
            &&& !fetch_names.contains(name) && entry.kind == TargetKind::Handler && addr == "echo:"@
                ==> shown == (name, "echoes your bytes back to you"@)
            &&& !fetch_names.contains(name) && entry.kind == TargetKind::Handler && forwards(addr)
                ==> shown == (name + " -> "@ + addr, "local TCP service"@)
            &&& !fetch_names.contains(name) && entry.kind == TargetKind::Handler && !forwards(addr)
                && addr != "echo:"@ && addr == scheme + seq![':'] ==> shown.1 == engine_gloss(scheme) && (
            name == scheme ==> shown.0 == name) && (name != scheme ==> shown.0 == name + " -> "@
                + scheme)
        }),
{
    let addr = target(targets, entry.name@);
    reveal_strlit("echo:");
    reveal_strlit("tcp:");
    reveal_strlit("unix:");
    if addr == "echo:"@ {
        assert(addr[0] == 'e');
        a_target_is_told_by_its_scheme(Seq::empty(), addr);
    }
    if addr == scheme + seq![':'] {
        text::one_last_character_comes_off(scheme, ':');
        assert(scheme.push(':') =~= scheme + seq![':']);
    }
    if let Some(RawSource::Path(path)) = entry.raw_source {
        let a = "serving the raw bytes of "@;
        let b = " to anyone, no auth"@;
        assert(a + path@ + b =~= a + (path@ + b));
        text::lemma_mentions(a, path@ + b, Seq::empty());
    }
}

/// A route is plumbing where it is the roster or begins with `control.`, whatever follows, and nowhere else;
/// and all of it folds to the one row of the family gate.
pub proof fn plumbing_is_told_by_its_name(name: Seq<char>, rest: Seq<char>)
    ensures
        is_plumbing("control."@ + rest),
        is_plumbing("roster"@),
        name != "roster"@ && (name.len() < 8 || name.take(8) != "control."@) ==> !is_plumbing(name),
        control_row().label == "control.*"@,
        control_row().gloss == "node control (never public)"@,
        !control_row().unmetered,
{
    reveal_strlit("control.");
    text::a_prefix_comes_off_as_it_went_on("control."@, rest, Seq::empty());
    if text::begins(name, "control."@) {
        assert(name.subrange(0, 8) =~= name.take(8));
    }
}

/// Each route is looked at by itself: a group has the row of a route exactly where the route is not plumbing
/// and belongs under it, in manifest order; and a row carries the caveat exactly where an open service is
/// unmetered.
pub proof fn each_route_is_looked_at_by_itself(
    a: Seq<ManifestEntry>,
    b: Seq<ManifestEntry>,
    entry: ManifestEntry,
    targets: Map<Seq<char>, Seq<char>>,
    fetch_names: Seq<Seq<char>>,
    group: Group,
)
    ensures
        service_rows(a + b, targets, fetch_names, group) == service_rows(
            a,
            targets,
            fetch_names,
            group,
        ) + service_rows(b, targets, fetch_names, group),
        service_rows(Seq::<ManifestEntry>::empty(), targets, fetch_names, group).len() == 0,
        !is_plumbing(entry.name@) && Group::group_of(entry.posture, entry.kind) == group
            ==> service_rows(seq![entry], targets, fetch_names, group).len() == 1 && ({
            let row = service_rows(seq![entry], targets, fetch_names, group)[0];
            &&& (row.label, row.gloss) == description(entry, targets, fetch_names)
            &&& row.unmetered <==> entry.posture == Posture::Open && entry.metering == Some(
                Metering::Unmetered,
            )
        }),
        is_plumbing(entry.name@) || Group::group_of(entry.posture, entry.kind) != group
            ==> service_rows(seq![entry], targets, fetch_names, group).len() == 0,
        group != Group::FamilyGated ==> group_rows(a, targets, fetch_names, group) == service_rows(
            a,
            targets,
            fetch_names,
            group,
        ),
        group_rows(a, targets, fetch_names, Group::FamilyGated) == service_rows(
            a,
            targets,
            fetch_names,
            Group::FamilyGated,
        ) + (if exists|i: int| 0 <= i < a.len() && is_plumbing((#[trigger] a[i]).name@) {
            seq![control_row()]
        } else {
            seq![]
        }),
    decreases b.len(),
{
    reveal_with_fuel(service_rows, 2);
    assert(seq![entry].drop_last() =~= Seq::<ManifestEntry>::empty());
    let services = service_rows(a, targets, fetch_names, Group::FamilyGated);
    assert(services.push(control_row()) =~= services + seq![control_row()]);
    assert(services + Seq::<ServiceRowView>::empty() =~= services);
    if b.len() == 0 {
        assert(a + b =~= a);
        assert(service_rows(a, targets, fetch_names, group) + service_rows(
            b,
            targets,
            fetch_names,
            group,
        ) =~= service_rows(a, targets, fetch_names, group));
    } else {
        assert((a + b).drop_last() =~= a + b.drop_last());
        each_route_is_looked_at_by_itself(a, b.drop_last(), entry, targets, fetch_names, group);
        assert(service_rows(a + b, targets, fetch_names, group) =~= service_rows(
            a,
            targets,
            fetch_names,
            group,
        ) + service_rows(b, targets, fetch_names, group));
    }
}

/// A row prints its label at the fourth column and its gloss in one column of its group, three past the
/// widest label, and the caveat behind it exactly where it is owed; rows print in order, each on its own
/// line; and a group without a row prints nothing, not its header either.
pub proof fn a_row_prints_in_its_columns(
    widest: nat,
    row: ServiceRowView,
    a: Seq<ServiceRowView>,
    b: Seq<ServiceRowView>,
    group: Group,
)
    ensures
        service_lines(widest, a + b) == service_lines(widest, a) + service_lines(widest, b),
        service_lines(widest, seq![row]) == service_line(widest, row),
        row.label.len() <= widest ==> ({
            let line = service_line(widest, row);
            let at = (4 + widest + 3) as int;
            &&& line.take(4) == "    "@
            &&& line.subrange(4int, 4int + row.label.len()) == row.label
            &&& line.subrange(at, at + row.gloss.len()) == row.gloss
            &&& line.last() == '\n'
            &&& row.unmetered <==> line.len() > at + row.gloss.len() + 1
            &&& row.unmetered ==> line.skip(at + row.gloss.len())
                == "   unmetered: a stranger can drain your uplink"@ + "\n"@
        }),
        group_text(group, Seq::<ServiceRowView>::empty()).len() == 0,
        a.len() > 0 ==> text::begins(
            group_text(group, a),
            "  "@ + group.title() + "   "@ + group.audience() + "\n"@,
        ),
    decreases b.len(),
{
    reveal_with_fuel(service_lines, 2);
    assert(seq![row].drop_last() =~= Seq::<ServiceRowView>::empty());
    assert(service_lines(widest, seq![row]) =~= service_line(widest, row));
    if b.len() == 0 {
        assert(a + b =~= a);
        assert(service_lines(widest, a) + service_lines(widest, b) =~= service_lines(widest, a));
    } else {
        assert((a + b).drop_last() =~= a + b.drop_last());
        a_row_prints_in_its_columns(widest, row, a, b.drop_last(), group);
        assert(service_lines(widest, a + b) =~= service_lines(widest, a) + service_lines(widest, b));
    }
    if row.label.len() <= widest {
        lemma_row_columns(widest, row);
    }
    if a.len() > 0 {
        text::a_prefix_comes_off_as_it_went_on(
            "  "@ + group.title() + "   "@ + group.audience() + "\n"@,
            service_lines(widest_label(a), a),
            Seq::empty(),
        );
    }
}

proof fn lemma_row_columns(widest: nat, row: ServiceRowView)
    requires
        row.label.len() <= widest,
    ensures
        ({
            let line = service_line(widest, row);
            let at = (4 + widest + 3) as int;
            &&& line.take(4) == "    "@
            &&& line.subrange(4int, 4int + row.label.len()) == row.label
            &&& line.subrange(at, at + row.gloss.len()) == row.gloss
            &&& line.last() == '\n'
            &&& row.unmetered <==> line.len() > at + row.gloss.len() + 1
            &&& row.unmetered ==> line.skip(at + row.gloss.len())
                == "   unmetered: a stranger can drain your uplink"@ + "\n"@
        }),
{
    reveal_strlit("    ");
    reveal_strlit("\n");
    reveal_strlit("   unmetered: a stranger can drain your uplink");
    let line = service_line(widest, row);
    let at = (4 + widest + 3) as int;
    text::filling_adds_only_spaces("    "@ + row.label, 4 + widest + 3);
    assert(line.take(4) =~= "    "@);
    assert(line.subrange(4int, 4int + row.label.len()) =~= row.label);
    assert(line.subrange(at, at + row.gloss.len()) =~= row.gloss);
    if row.unmetered {
        assert(line.skip(at + row.gloss.len()) =~= "   unmetered: a stranger can drain your uplink"@
            + "\n"@);
    }
}

/// The widest label is as wide as every label, and as wide as one.
pub proof fn the_widest_label_is_the_widest(rows: Seq<ServiceRowView>)
    ensures
        forall|i: int|
            0 <= i < rows.len() ==> vstd::utf8::encode_utf8((#[trigger] rows[i]).label).len()
                <= widest_label(rows),
        rows.len() > 0 ==> exists|i: int|
            0 <= i < rows.len() && vstd::utf8::encode_utf8((#[trigger] rows[i]).label).len()
                == widest_label(rows),
    decreases rows.len(),
{
    if rows.len() > 0 {
        let rest = rows.drop_last();
        the_widest_label_is_the_widest(rest);
        assert(forall|i: int| 0 <= i < rest.len() ==> rest[i] == #[trigger] rows[i]);
        assert(rows[rows.len() - 1] == rows.last());
        if rest.len() > 0 {
            let i = choose|i: int|
                0 <= i < rest.len() && vstd::utf8::encode_utf8((#[trigger] rest[i]).label).len()
                    == widest_label(rest);
            assert(rows[i] == rest[i]);
        }
    }
}

/// The section shows the three groups in the order of their danger, the safest first, under its title.
pub proof fn the_section_shows_the_safest_first(
    manifest: Seq<ManifestEntry>,
    targets: Map<Seq<char>, Seq<char>>,
    fetch_names: Seq<Seq<char>>,
)
    ensures
        ({
            let gated = group_text(
                Group::FamilyGated,
                group_rows(manifest, targets, fetch_names, Group::FamilyGated),
            );
            let open = group_text(
                Group::Public,
                group_rows(manifest, targets, fetch_names, Group::Public),
            );
            let raw = group_text(
                Group::PublicUnsafe,
                group_rows(manifest, targets, fetch_names, Group::PublicUnsafe),
            );
            section(manifest, targets, fetch_names) == "serving\n"@ + gated + open + raw
        }),
{
}

} // verus!
