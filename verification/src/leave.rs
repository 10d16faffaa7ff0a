//! Leaving: stopping being one of a root's devices, and with a new key, being another machine to every
//! root.

use vstd::prelude::*;
use vstd::string::StringExecFns;

use crate::date;
use crate::enrol::Device;
use crate::join;
use crate::standing;
use crate::standing::Standing;
use crate::text;

verus! {

broadcast use {vstd::seq::group_seq_axioms, vstd::string::group_string_axioms};

/// Stop being one of your devices.
#[derive(Debug)]
pub struct LeaveCmd {
    /// Give this machine a new key too.
    pub new_key: bool,
}

/// What this machine was before it left.
#[derive(Debug)]
pub enum Was {
    /// A device of `root` until `until`, in Unix seconds.
    Device { root: String, until: u64 },
    /// A home whose records disagreed, and the root it trusted if its pin could be read.
    Damaged { trusted: Option<String> },
    /// No root's device.
    Unpinned,
}

impl Was {
    /// The root this machine stops trusting.
    pub open spec fn trusted(self) -> Option<Seq<char>> {
        match self {
            Was::Device { root, until } => Some(root@),
            Was::Damaged { trusted: Some(root) } => Some(root@),
            Was::Damaged { trusted: None } => None,
            Was::Unpinned => None,
        }
    }
}

/// What a leave does.
#[derive(Debug)]
pub struct Leaving {
    pub was: Was,
    /// Whether the standing, the list of devices and the pin are removed.
    pub removes: bool,
    /// Whether the key is replaced.
    pub replaces_key: bool,
}

/// One thing a leave does.
#[derive(Debug, Clone, Copy, PartialEq, Eq, Structural)]
pub enum LeaveAct {
    /// Read this machine's name among its root's devices.
    ReadName,
    /// Remove the standing, the list of devices and the pin.
    Remove,
    /// Say what is left.
    SayLeft,
    /// Replace this machine's key.
    ReplaceKey,
    /// Print the new key.
    PrintKey,
    /// Say what the replacement means.
    SayReplaced,
}

impl Leaving {
    /// What the leave does, in order. The name is read while the list of devices is still there, and the key
    /// is replaced once nothing stands on the old one.
    pub open spec fn course(self) -> Seq<LeaveAct> {
        (if self.was is Device {
            seq![LeaveAct::ReadName]
        } else {
            seq![]
        }) + (if self.removes {
            seq![LeaveAct::Remove]
        } else {
            seq![]
        }) + (if self.was.trusted() is Some {
            seq![LeaveAct::SayLeft]
        } else {
            seq![]
        }) + (if self.replaces_key {
            seq![LeaveAct::ReplaceKey, LeaveAct::PrintKey, LeaveAct::SayReplaced]
        } else {
            seq![]
        })
    }

    /// What the leave does, in order.
    pub fn acts(&self) -> (acts: Vec<LeaveAct>)
        ensures
            acts@ == self.course(),
    {
        let mut acts: Vec<LeaveAct> = Vec::new();
        let (device, trusted): (bool, bool) = match &self.was {
            Was::Device { .. } => (true, true),
            Was::Damaged { trusted: Some(_) } => (false, true),
            Was::Damaged { trusted: None } => (false, false),
            Was::Unpinned => (false, false),
        };
        if device {
            acts.push(LeaveAct::ReadName);
        }
        if self.removes {
            acts.push(LeaveAct::Remove);
        }
        if trusted {
            acts.push(LeaveAct::SayLeft);
        }
        if self.replaces_key {
            acts.push(LeaveAct::ReplaceKey);
            acts.push(LeaveAct::PrintKey);
            acts.push(LeaveAct::SayReplaced);
        }
        assert(acts@ =~= self.course());
        acts
    }
}

/// Why a leave is refused, if it is.
pub open spec fn refusal(standing: Standing, new_key: bool, serving: bool) -> Option<Seq<char>> {
    match standing {
        Standing::HoldsRoot => Some(
            "your root is kept on this machine, and a machine that keeps a root is that root's device. To move your root off it: swoosh move-root <dir>"@,
        ),
        Standing::InterruptedMint { line } => Some(line@),
        Standing::Unpinned => if !new_key {
            Some("this machine is not one of your devices."@)
        } else if serving {
            Some("stop swoosh serve first."@)
        } else {
            None
        },
        _ => if new_key && serving {
            Some("stop swoosh serve first."@)
        } else {
            None
        },
    }
}

/// Whether `was` is what a machine of that standing was.
pub open spec fn was_standing(was: Was, standing: Standing) -> bool {
    match standing {
        Standing::Device { pin, until } => was matches Was::Device { root, until: secs } && root@
            == pin@ && secs == standing::unix_secs(until@),
        Standing::Damaged { line, trusted: pin } => was matches Was::Damaged { trusted }
            && match pin {
            Some(pin) => trusted is Some && trusted->0@ == pin@,
            None => trusted is None,
        },
        Standing::Unpinned => was is Unpinned,
        _ => false,
    }
}

impl LeaveCmd {
    /// Decide a leave, by this machine's standing and whether a serve runs. A serve is this machine's old
    /// key, so a new key waits for it to stop.
    pub fn leave(&self, standing: &Standing, serving: bool) -> (leaving: Result<Leaving, String>)
        ensures
            match leaving {
                Ok(leaving) => {
                    &&& refusal(*standing, self.new_key, serving) is None
                    &&& was_standing(leaving.was, *standing)
                    &&& leaving.removes == !(standing is Unpinned)
                    &&& leaving.replaces_key == self.new_key
                },
                Err(line) => refusal(*standing, self.new_key, serving) == Some(line@),
            },
    {
        let was = match standing {
            Standing::Device { pin, until } => Was::Device {
                root: pin.clone(),
                until: standing::unix(*until),
            },
            Standing::Unpinned => {
                if !self.new_key {
                    return Err("this machine is not one of your devices.".to_owned());
                }
                Was::Unpinned
            },
            Standing::HoldsRoot => {
                return Err(
                    "your root is kept on this machine, and a machine that keeps a root is that root's device. To move your root off it: swoosh move-root <dir>".to_owned(),
                );
            },
            Standing::InterruptedMint { line } => {
                return Err(line.clone());
            },
            Standing::Damaged { trusted, .. } => match trusted {
                Some(pin) => Was::Damaged { trusted: Some(pin.clone()) },
                None => Was::Damaged { trusted: None },
            },
        };
        if self.new_key && serving {
            return Err("stop swoosh serve first.".to_owned());
        }
        let removes: bool = match was {
            Was::Unpinned => false,
            _ => true,
        };
        Ok(Leaving { was, removes, replaces_key: self.new_key })
    }
}

/// The name the first device with the key `own` has.
pub open spec fn name_of(devices: Seq<Device>, own: Seq<char>) -> Option<Seq<char>>
    decreases devices.len(),
{
    if devices.len() == 0 {
        None
    } else if devices[0].key@ == own {
        Some(devices[0].label@)
    } else {
        name_of(devices.drop_first(), own)
    }
}

/// This machine's name among its root's devices, when it has one there.
pub fn own_name(devices: &Vec<Device>, own: &str) -> (name: Option<String>)
    ensures
        match name {
            Some(name) => name_of(devices@, own@) == Some(name@),
            None => name_of(devices@, own@) is None,
        },
{
    let mut i: usize = 0;
    assert(devices@.skip(0) =~= devices@);
    while i < devices.len()
        invariant
            i <= devices.len(),
            name_of(devices@, own@) == name_of(devices@.skip(i as int), own@),
        decreases devices.len() - i,
    {
        assert(devices@.skip(i as int).drop_first() =~= devices@.skip(i + 1));
        if text::same(devices[i].key.as_str(), own) {
            return Some(devices[i].label.clone());
        }
        i = i + 1;
    }
    None
}

/// What is said of the root this machine stops trusting.
pub open spec fn left_words(was: Was, name: Option<Seq<char>>, serving: bool) -> Seq<Seq<char>> {
    match was.trusted() {
        None => seq![],
        Some(root) => seq![
            "this machine no longer trusts root root:"@ + root + "."@ + (match (was, name) {
                (Was::Device { root: r, until }, Some(name)) => " Your root still lists it as me/"@
                    + name + " until "@ + date::day(until)
                    + ": revoke it there with swoosh revoke me/"@ + name + "."@,
                _ => Seq::empty(),
            }),
        ] + (if serving {
            seq![join::sessions_end_words(root)]
        } else {
            seq![]
        }),
    }
}

/// The lines about the root this machine stops trusting. `name` is what the root's own list calls it.
pub fn left_lines(was: &Was, name: Option<&str>, serving: bool) -> (lines: Vec<String>)
    ensures
        text::texts(lines@) == left_words(
            *was,
            match name {
                Some(name) => Some(name@),
                None => None,
            },
            serving,
        ),
{
    let mut lines: Vec<String> = Vec::new();
    let root = match was {
        Was::Device { root, .. } => root.as_str(),
        Was::Damaged { trusted: Some(root) } => root.as_str(),
        Was::Damaged { trusted: None } => {
            assert(text::texts(lines@) =~= seq![]);
            return lines;
        },
        Was::Unpinned => {
            assert(text::texts(lines@) =~= seq![]);
            return lines;
        },
    };
    let mut line = "this machine no longer trusts root root:".to_owned();
    line.append(root);
    line.append(".");
    let ghost head = line@;
    match (was, name) {
        (Was::Device { until, .. }, Some(name)) => {
            let mut listed = " Your root still lists it as me/".to_owned();
            listed.append(name);
            listed.append(" until ");
            listed.append(date::day_text(*until).as_str());
            listed.append(": revoke it there with swoosh revoke me/");
            listed.append(name);
            listed.append(".");
            line.append(listed.as_str());
        },
        _ => {
            assert(line@ =~= head + Seq::<char>::empty());
        },
    }
    lines.push(line);
    if serving {
        lines.push(join::sessions_end(root));
    }
    assert(text::texts(lines@) =~= left_words(
        *was,
        match name {
            Some(name) => Some(name@),
            None => None,
        },
        serving,
    ));
    lines
}

/// What is said of a replaced key.
pub open spec fn replaced_words(was: Was, kept: Option<Seq<char>>) -> Seq<Seq<char>> {
    (match kept {
        Some(path) => seq!["kept the old key at "@ + path],
        None => seq![],
    }) + seq!["links this machine made under its old key stop working."@] + (if was is Device {
        seq!["Give the new key to the machine that keeps your root to invite it again."@]
    } else {
        seq![]
    })
}

/// The lines about a replaced key. `kept` is where the old key was kept, where it was.
pub fn replaced_lines(was: &Was, kept: Option<&str>) -> (lines: Vec<String>)
    ensures
        text::texts(lines@) == replaced_words(
            *was,
            match kept {
                Some(path) => Some(path@),
                None => None,
            },
        ),
{
    let mut lines: Vec<String> = Vec::new();
    if let Some(path) = kept {
        let mut line = "kept the old key at ".to_owned();
        line.append(path);
        lines.push(line);
    }
    lines.push("links this machine made under its old key stop working.".to_owned());
    if let Was::Device { .. } = was {
        lines.push(
            "Give the new key to the machine that keeps your root to invite it again.".to_owned(),
        );
    }
    assert(text::texts(lines@) =~= replaced_words(
        *was,
        match kept {
            Some(path) => Some(path@),
            None => None,
        },
    ));
    lines
}

/// A root is never left behind: where a root is kept, or its making stopped halfway, every form of leave
/// is refused.
pub proof fn a_root_is_never_left(standing: Standing, new_key: bool, serving: bool)
    requires
        standing is HoldsRoot || standing is InterruptedMint,
    ensures
        refusal(standing, new_key, serving) is Some,
{
}

/// A damaged home can always be started over: without a new key, nothing refuses the leave.
pub proof fn a_damaged_home_can_always_leave(standing: Standing, serving: bool)
    requires
        standing is Damaged || standing is Device,
    ensures
        refusal(standing, false, serving) is None,
{
}

/// A leave does its parts in order, each at most once: the name is read before anything is removed, what is
/// left is said after the removal, the key is replaced after both, and the new key prints once it is made.
pub proof fn a_name_is_read_before_it_is_removed(leaving: Leaving, i: int, j: int)
    requires
        0 <= i < j < leaving.course().len(),
    ensures
        place(leaving.course()[i]) < place(leaving.course()[j]),
{
}

/// The place of an act in a leave.
pub open spec fn place(act: LeaveAct) -> int {
    match act {
        LeaveAct::ReadName => 0,
        LeaveAct::Remove => 1,
        LeaveAct::SayLeft => 2,
        LeaveAct::ReplaceKey => 3,
        LeaveAct::PrintKey => 4,
        LeaveAct::SayReplaced => 5,
    }
}

/// A key is never replaced under a running serve.
pub proof fn a_new_key_waits_for_the_serve(standing: Standing)
    ensures
        refusal(standing, true, true) is Some,
{
}

/// A leave is refused in exactly four cases: a root is kept here, its making stopped halfway, there is no
/// root to leave and no new key was asked for, or a new key was asked for under a running serve; and each is
/// answered in its own words.
pub proof fn a_leave_is_refused_where_something_stands_against_it(
    standing: Standing,
    new_key: bool,
    serving: bool,
)
    ensures
        refusal(standing, new_key, serving) is Some <==> standing is HoldsRoot
            || standing is InterruptedMint || (standing is Unpinned && !new_key) || (new_key
            && serving),
        standing matches Standing::InterruptedMint { line } ==> refusal(standing, new_key, serving)
            == Some(line@),
        standing is HoldsRoot ==> text::mentions(
            refusal(standing, new_key, serving)->0,
            "swoosh move-root <dir>"@,
        ),
        standing is Unpinned && !new_key ==> refusal(standing, new_key, serving) == Some(
            "this machine is not one of your devices."@,
        ),
        !(standing is HoldsRoot) && !(standing is InterruptedMint) && new_key && serving ==> refusal(
            standing,
            new_key,
            serving,
        ) == Some("stop swoosh serve first."@),
{
    if standing is HoldsRoot {
        reveal_strlit(
            "your root is kept on this machine, and a machine that keeps a root is that root's device. To move your root off it: swoosh move-root <dir>",
        );
        reveal_strlit("swoosh move-root <dir>");
        let w = refusal(standing, new_key, serving)->0;
        assert(w.subrange(w.len() - 22, w.len() - 22 + 22) =~= "swoosh move-root <dir>"@);
    }
}

/// A leave does each of its parts exactly where it is owed, and in order: a name is read of a device, before
/// anything is removed; what is left is said where a root was trusted; and a new key is made last, printed,
/// and said.
pub proof fn every_part_of_a_leave_is_done_where_it_is_owed(leaving: Leaving, act: LeaveAct)
    ensures
        leaving.course().contains(LeaveAct::ReadName) <==> leaving.was is Device,
        leaving.course().contains(LeaveAct::Remove) <==> leaving.removes,
        leaving.course().contains(LeaveAct::SayLeft) <==> leaving.was is Device || (
        leaving.was matches Was::Damaged { trusted } && trusted is Some),
        leaving.course().contains(LeaveAct::ReplaceKey) <==> leaving.replaces_key,
        leaving.course().contains(LeaveAct::PrintKey) <==> leaving.replaces_key,
        leaving.course().contains(LeaveAct::SayReplaced) <==> leaving.replaces_key,
        leaving.was is Device ==> leaving.course()[0] == LeaveAct::ReadName,
        leaving.replaces_key ==> leaving.course().len() >= 3 && leaving.course().skip(
            leaving.course().len() - 3,
        ) == seq![LeaveAct::ReplaceKey, LeaveAct::PrintKey, LeaveAct::SayReplaced],
        leaving.removes && leaving.was.trusted() is Some ==> exists|i: int|
            0 <= i < leaving.course().len() - 1 && #[trigger] leaving.course()[i] == LeaveAct::Remove
                && leaving.course()[i + 1] == LeaveAct::SayLeft,
        leaving.course().len() <= 6,
{
    let c = leaving.course();
    let named: int = if leaving.was is Device {
        1
    } else {
        0
    };
    let removed: int = if leaving.removes {
        1
    } else {
        0
    };
    let told: int = if leaving.was.trusted() is Some {
        1
    } else {
        0
    };
    let n = named + removed + told;
    if leaving.was is Device {
        assert(c[0] == LeaveAct::ReadName);
    }
    if leaving.removes {
        assert(c[named] == LeaveAct::Remove);
    }
    if leaving.was.trusted() is Some {
        assert(c[named + removed] == LeaveAct::SayLeft);
    }
    if leaving.replaces_key {
        assert(c[n] == LeaveAct::ReplaceKey);
        assert(c[n + 1] == LeaveAct::PrintKey);
        assert(c[n + 2] == LeaveAct::SayReplaced);
        assert(c.skip(c.len() - 3) =~= seq![
            LeaveAct::ReplaceKey,
            LeaveAct::PrintKey,
            LeaveAct::SayReplaced,
        ]);
    }
}

/// What a machine was is its standing: of a device the root and the end of its badge in whole seconds, of a
/// damaged home the root its pin names, and of a home without a root neither.
pub proof fn what_a_machine_was_is_its_standing(was: Was, standing: Standing)
    requires
        was_standing(was, standing),
    ensures
        standing is Device <==> was is Device,
        standing is Damaged <==> was is Damaged,
        standing is Unpinned <==> was is Unpinned,
        standing matches Standing::Device { pin, until } ==> was.trusted() == Some(pin@) && (
        was matches Was::Device { root, until: secs } && (until@ >= 0 && until@ / 1_000_000_000
            <= u64::MAX ==> secs == until@ / 1_000_000_000)),
        standing matches Standing::Damaged { line, trusted } ==> (trusted matches Some(pin)
            ==> was.trusted() == Some(pin@)) && (trusted is None ==> was.trusted() is None),
        standing is Unpinned ==> was.trusted() is None,
{
}

/// A machine goes by the name of the first device that has its key, and by none where no device has it.
pub proof fn the_first_device_with_the_key_names_it(devices: Seq<Device>, own: Seq<char>)
    ensures
        forall|i: int|
            0 <= i < devices.len() && (#[trigger] devices[i]).key@ == own && (forall|j: int|
                0 <= j < i ==> (#[trigger] devices[j]).key@ != own) ==> name_of(devices, own)
                == Some(devices[i].label@),
        (forall|i: int| 0 <= i < devices.len() ==> (#[trigger] devices[i]).key@ != own) <==> name_of(
            devices,
            own,
        ) is None,
    decreases devices.len(),
{
    if devices.len() > 0 && devices[0].key@ != own {
        let rest = devices.drop_first();
        the_first_device_with_the_key_names_it(rest, own);
        assert(forall|i: int| 0 <= i < rest.len() ==> #[trigger] rest[i] == devices[i + 1]);
        assert forall|i: int|
            0 <= i < devices.len() && (#[trigger] devices[i]).key@ == own && (forall|j: int|
                0 <= j < i ==> (#[trigger] devices[j]).key@ != own) implies name_of(devices, own)
            == Some(devices[i].label@) by {
            assert(rest[i - 1] == devices[i]);
            assert forall|j: int| 0 <= j < i - 1 implies (#[trigger] rest[j]).key@ != own by {
                assert(rest[j] == devices[j + 1]);
            }
        }
        if name_of(devices, own) is None {
            assert forall|i: int| 0 <= i < devices.len() implies (#[trigger] devices[i]).key@
                != own by {
                if i > 0 {
                    assert(rest[i - 1] == devices[i]);
                }
            }
        } else {
            let i = choose|i: int| 0 <= i < rest.len() && (#[trigger] rest[i]).key@ == own;
            assert(rest[i] == devices[i + 1]);
        }
    }
}

/// What is said of a leave names the root that is left, and of a listed device the name and the day it is
/// listed until; a running serve is told that its sessions end; and where no root was trusted nothing is
/// said.
pub proof fn what_is_said_of_a_leave_fits_it(was: Was, name: Option<Seq<char>>, serving: bool)
    ensures
        was.trusted() is None ==> left_words(was, name, serving).len() == 0,
        was.trusted() matches Some(root) ==> {
            let lines = left_words(was, name, serving);
            let plain = "this machine no longer trusts root root:"@ + root + "."@;
            &&& lines.len() == if serving {
                2int
            } else {
                1
            }
            &&& text::begins(lines[0], plain)
            &&& serving ==> text::mentions(lines[1], root)
            &&& !(was is Device && name is Some) ==> lines[0] == plain
            &&& was matches Was::Device { root: r, until } ==> (name matches Some(name)
                ==> text::mentions(lines[0], "me/"@ + name + " until "@ + date::day(until))
                && text::mentions(lines[0], "swoosh revoke me/"@ + name))
        },
{
    if let Some(root) = was.trusted() {
        let lines = left_words(was, name, serving);
        let plain = "this machine no longer trusts root root:"@ + root + "."@;
        if serving {
            text::lemma_mentions(
                "sessions this machine admitted under root root:"@,
                root,
                " end now, including one you reached it through as a device of that root. A session through a link this machine issued stays open."@,
            );
        }
        match (was, name) {
            (Was::Device { root: r, until }, Some(name)) => {
                let day = date::day(until);
                lemma_listed(plain, name, day);
                let tail = " Your root still lists it as me/"@ + name + " until "@ + day
                    + ": revoke it there with swoosh revoke me/"@ + name + "."@;
                assert(lines[0] == plain + tail);
                text::a_prefix_comes_off_as_it_went_on(plain, tail, Seq::empty());
            },
            _ => {
                assert(lines[0] =~= plain);
                text::a_prefix_comes_off_as_it_went_on(plain, Seq::empty(), Seq::empty());
                assert(plain + Seq::<char>::empty() =~= plain);
            },
        }
    }
}

proof fn lemma_listed(plain: Seq<char>, name: Seq<char>, day: Seq<char>)
    ensures
        text::mentions(
            plain + (" Your root still lists it as me/"@ + name + " until "@ + day
                + ": revoke it there with swoosh revoke me/"@ + name + "."@),
            "me/"@ + name + " until "@ + day,
        ),
        text::mentions(
            plain + (" Your root still lists it as me/"@ + name + " until "@ + day
                + ": revoke it there with swoosh revoke me/"@ + name + "."@),
            "swoosh revoke me/"@ + name,
        ),
{
    reveal_strlit(" Your root still lists it as me/");
    reveal_strlit(" Your root still lists it as ");
    reveal_strlit("me/");
    reveal_strlit(": revoke it there with swoosh revoke me/");
    reveal_strlit(": revoke it there with ");
    reveal_strlit("swoosh revoke me/");
    assert(" Your root still lists it as me/"@ =~= " Your root still lists it as "@ + "me/"@);
    assert(": revoke it there with swoosh revoke me/"@ =~= ": revoke it there with "@
        + "swoosh revoke me/"@);
    lemma_regrouped(
        plain,
        " Your root still lists it as "@,
        "me/"@,
        name,
        " until "@,
        day,
        ": revoke it there with "@,
        "swoosh revoke me/"@,
        "."@,
    );
}

proof fn lemma_regrouped(
    plain: Seq<char>,
    a: Seq<char>,
    b: Seq<char>,
    name: Seq<char>,
    c: Seq<char>,
    day: Seq<char>,
    d: Seq<char>,
    e: Seq<char>,
    f: Seq<char>,
)
    ensures
        text::mentions(
            plain + (a + b + name + c + day + (d + e) + name + f),
            b + name + c + day,
        ),
        text::mentions(plain + (a + b + name + c + day + (d + e) + name + f), e + name),
{
    let listed = b + name + c + day;
    let mid = a + b + name + c + day;
    assert(mid =~= a + listed) by {
        lemma_grouped(a, b, name, c, day);
    }
    text::lemma_mentions(a, listed, Seq::empty());
    text::lemma_mentions_on(plain, mid, d + e, listed);
    text::lemma_mentions_on(plain, mid + (d + e), name, listed);
    text::lemma_mentions_on(plain, mid + (d + e) + name, f, listed);
    text::lemma_mentions_on(plain, mid + (d + e) + name + f, Seq::empty(), listed);
    let cut = e + name;
    assert(mid + (d + e) + name =~= mid + d + cut);
    text::lemma_mentions(mid + d, cut, Seq::empty());
    text::lemma_mentions_on(plain, mid + (d + e) + name, f, cut);
    text::lemma_mentions_on(plain, mid + (d + e) + name + f, Seq::empty(), cut);
}

proof fn lemma_grouped(a: Seq<char>, b: Seq<char>, c: Seq<char>, d: Seq<char>, e: Seq<char>)
    ensures
        a + b + c + d + e == a + (b + c + d + e),
{
    assert(a + b + c =~= a + (b + c));
    assert(a + (b + c) + d =~= a + (b + c + d));
    assert(a + (b + c + d) + e =~= a + (b + c + d + e));
}

/// What is said of a replaced key names where the old one is kept, where it is, always says that its links
/// stop working, and tells a device how it is invited again.
pub proof fn what_is_said_of_a_new_key_fits_it(was: Was, kept: Option<Seq<char>>)
    ensures
        kept matches Some(path) ==> replaced_words(was, kept)[0] == "kept the old key at "@ + path,
        replaced_words(was, kept).contains(
            "links this machine made under its old key stop working."@,
        ),
        was is Device <==> replaced_words(was, kept).last()
            == "Give the new key to the machine that keeps your root to invite it again."@,
        replaced_words(was, kept).len() == 1 + (if kept is Some {
            1int
        } else {
            0
        }) + (if was is Device {
            1int
        } else {
            0
        }),
{
    reveal_strlit("links this machine made under its old key stop working.");
    reveal_strlit("Give the new key to the machine that keeps your root to invite it again.");
    let lines = replaced_words(was, kept);
    let at: int = if kept is Some {
        1
    } else {
        0
    };
    assert(lines[at] == "links this machine made under its old key stop working."@);
}

} // verus!
