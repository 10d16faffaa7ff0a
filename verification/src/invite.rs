//! Inviting: adding one of a root's devices, renewing one, or handing a machine with no console a key.
//!
//! Only the root adds or renews a device. An act refuses before the passphrase whatever the records
//! refuse, signs, writes, prints the invite, and then offers what it cut to the other devices. The
//! decisions of an act are here, from one answer of the outside to the next thing to do.

use vstd::prelude::*;
use vstd::string::StringExecFns;

use crate::date;
use crate::dial;
use crate::dial::BindRole;
use crate::span;
use crate::span::Span;
use crate::text;

verus! {

broadcast use {vstd::seq::group_seq_axioms, vstd::string::group_string_axioms};

/// The shortest `--expires` a device takes, in seconds: an hour.
pub const SHORTEST: u64 = 60 * 60;

/// The longest `--expires` a device takes, in seconds: 365 days.
pub const LONGEST: u64 = 365 * 24 * 60 * 60;

/// Under this, in seconds, an invite says that a leaked copy dies with its date: 30 days.
pub const SHORT_LIVED: u64 = 30 * 24 * 60 * 60;

/// How long a device runs where nothing else is said, in seconds: 90 days.
pub const DEFAULT_DURATION: u64 = 90 * 24 * 60 * 60;

/// The name the root's own devices stand under.
pub const ME: &'static str = "me";

/// Add one of your devices, or renew it.
#[derive(Debug)]
pub struct InviteCmd {
    /// The device, as it is named among your devices.
    pub name: Option<String>,
    /// The key the device made.
    pub key: Option<String>,
    /// Make a new key, inside the invite.
    pub new_key: bool,
    /// How long the device runs, in seconds.
    pub expires: Option<u64>,
    /// Where the root is, when it is not kept on this machine.
    pub root: Option<String>,
}

impl InviteCmd {
    /// An invite dials your devices as this machine.
    pub fn bind_role(&self) -> (role: BindRole)
        ensures
            role@ == dial::as_family(None, None),
    {
        BindRole::family(None, &None)
    }

    /// The bare invite: one line for each device due to renew, in the order of the records. `due` are
    /// their names.
    pub fn run_due(&self, due: &Vec<String>) -> (lines: Vec<String>)
        ensures
            lines@.len() == due@.len(),
            forall|i: int|
                0 <= i < due@.len() ==> (#[trigger] lines@[i])@ == "swoosh invite "@ + due@[i]@,
    {
        let mut lines: Vec<String> = Vec::new();
        let mut i: usize = 0;
        while i < due.len()
            invariant
                i <= due.len(),
                lines.len() == i,
                forall|k: int|
                    0 <= k < i ==> (#[trigger] lines@[k])@ == "swoosh invite "@ + due@[k]@,
            decreases due.len() - i,
        {
            let mut line = "swoosh invite ".to_owned();
            line.append(due[i].as_str());
            lines.push(line);
            i = i + 1;
        }
        lines
    }
}

/// A device's `--expires`, from the duration its text parses to: an hour to 365 days.
pub fn device_expiry(parsed: Result<u64, String>) -> (expires: Result<u64, String>)
    ensures
        match (parsed, expires) {
            (Err(error), _) => expires matches Err(line) && line@ == error@,
            (Ok(secs), Ok(taken)) => taken == secs && SHORTEST <= secs <= LONGEST,
            (Ok(secs), Err(line)) => !(SHORTEST <= secs <= LONGEST) && line@
                == "a device's --expires is 1h to 365d"@,
        },
{
    match parsed {
        Err(error) => Err(error),
        Ok(secs) => {
            if SHORTEST <= secs && secs <= LONGEST {
                Ok(secs)
            } else {
                Err("a device's --expires is 1h to 365d".to_owned())
            }
        },
    }
}

/// What the command line asks for, before the records are read.
#[derive(Debug)]
pub enum Ask {
    /// Add the device that made this key.
    Add(String),
    /// An invite that carries a new key.
    NewKey,
    /// Renew the device.
    Renew,
}

/// What the act does, once the records are read.
#[derive(Debug)]
pub enum Plan {
    /// Add the device that made this key.
    Add(String),
    /// Add a device whose key the root makes.
    Keyed,
    /// Renew the named device, keeping its key.
    Renew,
    /// Hand the named device, whose key came in its invite, a new one.
    Rekey,
}

pub ghost enum AskView {
    Add(Seq<char>),
    NewKey,
    Renew,
}

pub ghost enum PlanView {
    Add(Seq<char>),
    Keyed,
    Renew,
    Rekey,
}

impl View for Ask {
    type V = AskView;

    open spec fn view(&self) -> AskView {
        match self {
            Ask::Add(key) => AskView::Add(key@),
            Ask::NewKey => AskView::NewKey,
            Ask::Renew => AskView::Renew,
        }
    }
}

impl View for Plan {
    type V = PlanView;

    open spec fn view(&self) -> PlanView {
        match self {
            Plan::Add(key) => PlanView::Add(key@),
            Plan::Keyed => PlanView::Keyed,
            Plan::Renew => PlanView::Renew,
            Plan::Rekey => PlanView::Rekey,
        }
    }
}

/// One device in the root's records.
#[derive(Debug)]
pub struct Row {
    pub key: String,
    pub label: String,
    /// When its standing ends, in Unix seconds.
    pub until: u64,
    /// How long a renewal of it runs, in seconds; 0 where it has no length of its own.
    pub duration: u64,
    /// When it was revoked, in Unix seconds; 0 where it was not.
    pub revoked_on: u64,
}

impl Row {
    /// Whether the device is not revoked and has this name.
    pub open spec fn is_live(self, name: Seq<char>) -> bool {
        self.revoked_on == 0 && self.label@ == name
    }
}

/// The first device that is not revoked and has this name.
pub open spec fn live_row(rows: Seq<Row>, name: Seq<char>) -> Option<Row>
    decreases rows.len(),
{
    if rows.len() == 0 {
        None
    } else if rows[0].is_live(name) {
        Some(rows[0])
    } else {
        live_row(rows.drop_first(), name)
    }
}

/// The device of this name that is not revoked.
pub fn find_live<'a>(rows: &'a Vec<Row>, name: &str) -> (row: Option<&'a Row>)
    ensures
        match row {
            Some(row) => live_row(rows@, name@) == Some(*row),
            None => live_row(rows@, name@) is None,
        },
{
    let mut i: usize = 0;
    assert(rows@.skip(0) =~= rows@);
    while i < rows.len()
        invariant
            i <= rows.len(),
            live_row(rows@, name@) == live_row(rows@.skip(i as int), name@),
        decreases rows.len() - i,
    {
        assert(rows@.skip(i as int).drop_first() =~= rows@.skip(i + 1));
        if rows[i].revoked_on == 0 && text::same(rows[i].label.as_str(), name) {
            return Some(&rows[i]);
        }
        i = i + 1;
    }
    None
}

/// The named device's own renewal length, or the default when it has none.
pub open spec fn renewal_length(rows: Seq<Row>, name: Seq<char>) -> u64 {
    match live_row(rows, name) {
        Some(row) => if row.duration != 0 {
            row.duration
        } else {
            DEFAULT_DURATION
        },
        None => DEFAULT_DURATION,
    }
}

/// The named device's own renewal length, in seconds, or the default when it has none.
pub fn own_duration(rows: &Vec<Row>, name: &str) -> (secs: u64)
    ensures
        secs == renewal_length(rows@, name@),
{
    match find_live(rows, name) {
        Some(row) => if row.duration != 0 {
            row.duration
        } else {
            DEFAULT_DURATION
        },
        None => DEFAULT_DURATION,
    }
}

/// What is said where there is no device to renew.
pub open spec fn no_device_words(name: Seq<char>) -> Seq<char> {
    "you have no device "@ + name
        + ". For a machine with no console: swoosh invite "@ + name
        + " --new-key. Otherwise: swoosh invite "@ + name + " <its key>."@
}

/// What is said where there is no device to renew.
pub fn no_device_line(name: &str) -> (line: String)
    ensures
        line@ == no_device_words(name@),
{
    let mut line = "you have no device ".to_owned();
    line.append(name);
    line.append(". For a machine with no console: swoosh invite ");
    line.append(name);
    line.append(" --new-key. Otherwise: swoosh invite ");
    line.append(name);
    line.append(" <its key>.");
    line
}

/// What a second positional that is not a key is answered.
pub open spec fn not_a_key_words(text: Seq<char>) -> Seq<char> {
    text + " is not a key: to renew "@ + text + ", swoosh invite "@ + text
}

/// Why a text is not a key that can be used.
#[derive(Debug)]
pub enum KeyFault {
    /// It does not read as a key.
    NotAKey,
    /// It reads as a key that nobody can hold; the check it failed, in words.
    Unusable(String),
}

/// What a key that cannot be used is answered.
pub open spec fn unusable_key_words(text: Seq<char>, check: Seq<char>) -> Seq<char> {
    text + " is not a usable key: "@ + check
}

/// What a key that cannot be used is answered: the check it failed, and never how to renew.
pub fn unusable_key_line(text: &str, check: &str) -> (line: String)
    ensures
        line@ == unusable_key_words(text@, check@),
{
    let mut line = text.to_owned();
    line.append(" is not a usable key: ");
    line.append(check);
    line
}

/// The second positional, which is always a key. `parsed` is what the text reads as.
pub fn parse_key(text: &str, parsed: Result<String, KeyFault>) -> (key: Result<String, String>)
    ensures
        match (parsed, key) {
            (Ok(read), Ok(key)) => key@ == read@,
            (Err(KeyFault::NotAKey), Err(line)) => line@ == not_a_key_words(text@),
            (Err(KeyFault::Unusable(check)), Err(line)) => line@ == unusable_key_words(
                text@,
                check@,
            ),
            _ => false,
        },
{
    match parsed {
        Ok(key) => Ok(key),
        Err(KeyFault::NotAKey) => {
            let mut line = text.to_owned();
            line.append(" is not a key: to renew ");
            line.append(text);
            line.append(", swoosh invite ");
            line.append(text);
            Err(line)
        },
        Err(KeyFault::Unusable(check)) => Err(unusable_key_line(text, check.as_str())),
    }
}

/// What a key typed where the name goes is answered.
pub open spec fn key_as_name_words(text: Seq<char>) -> Seq<char> {
    text + " is a key, not a name: swoosh invite <name> "@ + text
}

/// The first positional, which is always a name. Text that is a key is never one, whether or not the key
/// can be used: `key` is what the text reads as among keys, `name` what it reads as among names.
pub fn parse_name(
    text: &str,
    key: Result<String, KeyFault>,
    name: Result<String, String>,
) -> (taken: Result<String, String>)
    ensures
        match key {
            Ok(read) => taken matches Err(line) && line@ == key_as_name_words(text@),
            Err(KeyFault::Unusable(check)) => taken matches Err(line) && line@
                == unusable_key_words(text@, check@),
            Err(KeyFault::NotAKey) => match (name, taken) {
                (Ok(read), Ok(taken)) => taken@ == read@,
                (Err(rule), Err(line)) => line@ == rule@,
                _ => false,
            },
        },
{
    match key {
        Ok(_) => {
            let mut line = text.to_owned();
            line.append(" is a key, not a name: swoosh invite <name> ");
            line.append(text);
            Err(line)
        },
        Err(KeyFault::Unusable(check)) => Err(unusable_key_line(text, check.as_str())),
        Err(KeyFault::NotAKey) => name,
    }
}

/// Whether `name` is a person's in the address book, and not the root's own devices'.
pub open spec fn is_contact(petnames: Seq<Seq<char>>, name: Seq<char>) -> bool {
    name != ME@ && petnames.contains(name)
}

/// What a name that is a contact's is answered.
pub open spec fn contact_words(name: Seq<char>) -> Seq<char> {
    name + " is a contact: to let "@ + name + " use a service, swoosh share <service> "@ + name
}

/// Refuse a name that is a contact's: a person is shared with, never made one of your devices.
pub fn refuse_a_contact(petnames: &Vec<String>, name: &str) -> (refused: Result<(), String>)
    ensures
        match refused {
            Ok(()) => !is_contact(text::texts(petnames@), name@),
            Err(line) => is_contact(text::texts(petnames@), name@) && line@ == contact_words(name@),
        },
{
    if !text::same(name, ME) && text::holds(petnames, name) {
        let mut line = name.to_owned();
        line.append(" is a contact: to let ");
        line.append(name);
        line.append(" use a service, swoosh share <service> ");
        line.append(name);
        return Err(line);
    }
    Ok(())
}

/// What this machine's own key is answered, where it is already the device `name`.
pub open spec fn own_key_words(name: Seq<char>) -> Seq<char> {
    "that is this machine's key; it is already your device me/"@ + name
}

/// Why an act is refused before a root is made here, if it is.
pub open spec fn first_root_refusal(
    own: Seq<char>,
    suggested: Seq<char>,
    name: Seq<char>,
    ask: AskView,
) -> Option<Seq<char>> {
    match ask {
        AskView::Add(key) => if key == own {
            Some(own_key_words(suggested))
        } else {
            None
        },
        AskView::Renew => Some(no_device_words(name)),
        AskView::NewKey => None,
    }
}

/// Before a root is made here, refuse what the new root's records would: this machine's own key, which
/// becomes its first device under the suggested name, and a renewal, since the root has no device yet.
pub fn refuse_before_the_first_root(own: &str, suggested: &str, name: &str, ask: &Ask) -> (refused:
    Result<(), String>)
    ensures
        match refused {
            Ok(()) => first_root_refusal(own@, suggested@, name@, ask@) is None,
            Err(line) => first_root_refusal(own@, suggested@, name@, ask@) == Some(line@),
        },
{
    match ask {
        Ask::Add(key) => {
            if text::same(key.as_str(), own) {
                let mut line = "that is this machine's key; it is already your device me/".to_owned();
                line.append(suggested);
                return Err(line);
            }
            Ok(())
        },
        Ask::Renew => Err(no_device_line(name)),
        Ask::NewKey => Ok(()),
    }
}

/// What an ask comes to on the records: the device of that name is renewed where it is the asked key,
/// rekeyed on a new key, and added where there is none. `refused` is what the records hold against adding
/// the key, or against rekeying the device.
pub open spec fn planned(
    device: Option<Row>,
    name: Seq<char>,
    ask: AskView,
    refused: Option<Seq<char>>,
) -> Result<PlanView, Seq<char>> {
    match (ask, device) {
        (AskView::Add(key), Some(row)) => if row.key@ == key {
            Ok(PlanView::Renew)
        } else if refused is Some {
            Err(refused->0)
        } else {
            Ok(PlanView::Add(key))
        },
        (AskView::Add(key), None) => if refused is Some {
            Err(refused->0)
        } else {
            Ok(PlanView::Add(key))
        },
        (AskView::NewKey, Some(row)) => if refused is Some {
            Err(refused->0)
        } else {
            Ok(PlanView::Rekey)
        },
        (AskView::NewKey, None) => Ok(PlanView::Keyed),
        (AskView::Renew, Some(row)) => Ok(PlanView::Renew),
        (AskView::Renew, None) => Err(no_device_words(name)),
    }
}

/// The line that comes before the passphrase: what a new device will reach, and whom a renewal of a
/// device whose date has passed brings back.
pub open spec fn plan_words(
    plan: PlanView,
    device: Option<Row>,
    name: Seq<char>,
    now: u64,
) -> Option<Seq<char>> {
    match (plan, device) {
        (PlanView::Add(key), _) => Some(new_device_words(name)),
        (PlanView::Keyed, _) => Some(new_device_words(name)),
        (PlanView::Renew, Some(row)) => if row.until <= now {
            Some(
                "renewing me/"@ + name + " ("@ + row.key@ + "), which ended on "@ + date::day(
                    row.until,
                ) + ". Whatever machine holds "@ + row.key@
                    + " picks this up the next time it reaches one of your devices. If that is not a machine you still have, stop here and run: swoosh revoke me/"@
                    + name,
            )
        } else {
            None
        },
        _ => None,
    }
}

pub open spec fn new_device_words(name: Seq<char>) -> Seq<char> {
    "me/"@ + name
        + " will be one of your own devices: it reaches everything your devices serve."@
}

/// A plan, and the line that comes before the passphrase.
#[derive(Debug)]
pub struct Planned {
    pub plan: Plan,
    pub line: Option<String>,
}

/// What `ask` does to the records, or why they refuse it.
pub fn plan(
    device: Option<&Row>,
    name: &str,
    ask: &Ask,
    refused: Option<String>,
    now: u64,
) -> (out: Result<Planned, String>)
    ensures
        ({
            let row = match device {
                Some(row) => Some(*row),
                None => None,
            };
            let against = match refused {
                Some(line) => Some(line@),
                None => None,
            };
            match out {
                Ok(out) => planned(row, name@, ask@, against) == Ok::<PlanView, Seq<char>>(
                    out.plan@,
                ) && plan_words(out.plan@, row, name@, now) == match out.line {
                    Some(line) => Some(line@),
                    None => None,
                },
                Err(line) => planned(row, name@, ask@, against) == Err::<PlanView, Seq<char>>(
                    line@,
                ),
            }
        }),
{
    let plan: Plan = match (ask, device) {
        (Ask::Add(key), Some(row)) => {
            if text::same(row.key.as_str(), key.as_str()) {
                Plan::Renew
            } else {
                match refused {
                    Some(line) => {
                        return Err(line);
                    },
                    None => Plan::Add(key.clone()),
                }
            }
        },
        (Ask::Add(key), None) => match refused {
            Some(line) => {
                return Err(line);
            },
            None => Plan::Add(key.clone()),
        },
        (Ask::NewKey, Some(_)) => match refused {
            Some(line) => {
                return Err(line);
            },
            None => Plan::Rekey,
        },
        (Ask::NewKey, None) => Plan::Keyed,
        (Ask::Renew, Some(_)) => Plan::Renew,
        (Ask::Renew, None) => {
            return Err(no_device_line(name));
        },
    };
    let line: Option<String> = match (&plan, device) {
        (Plan::Add(_), _) => Some(new_device_line(name)),
        (Plan::Keyed, _) => Some(new_device_line(name)),
        (Plan::Renew, Some(row)) => {
            if row.until <= now {
                let mut line = "renewing me/".to_owned();
                line.append(name);
                line.append(" (");
                line.append(row.key.as_str());
                line.append("), which ended on ");
                line.append(date::day_text(row.until).as_str());
                line.append(". Whatever machine holds ");
                line.append(row.key.as_str());
                line.append(
                    " picks this up the next time it reaches one of your devices. If that is not a machine you still have, stop here and run: swoosh revoke me/",
                );
                line.append(name);
                Some(line)
            } else {
                None
            }
        },
        _ => None,
    };
    Ok(Planned { plan, line })
}

fn new_device_line(name: &str) -> (line: String)
    ensures
        line@ == new_device_words(name@),
{
    let mut line = "me/".to_owned();
    line.append(name);
    line.append(" will be one of your own devices: it reaches everything your devices serve.");
    line
}

/// Why a named device's stored standing printed.
pub open spec fn no_renewal_words(name: Seq<char>, until: u64, own: bool) -> Seq<char> {
    let head = "me/"@ + name + " needs no renewal (until "@ + date::day(until) + ")."@;
    if own {
        head
    } else {
        head + " If it left, or its date passed, on it: swoosh join and paste this line."@
    }
}

/// Why a named device's stored standing printed: it needs no renewal. For another device than this one,
/// how it takes the line.
pub fn needs_no_renewal(name: &str, until: u64, own: bool) -> (line: String)
    ensures
        line@ == no_renewal_words(name@, until, own),
{
    let mut line = "me/".to_owned();
    line.append(name);
    line.append(" needs no renewal (until ");
    line.append(date::day_text(until).as_str());
    line.append(").");
    if !own {
        line.append(" If it left, or its date passed, on it: swoosh join and paste this line.");
    }
    line
}

/// What the act signed for the named device, to print.
#[derive(Debug, Clone, Copy, PartialEq, Eq, Structural)]
pub struct Issued {
    /// Whether the invite carries a key.
    pub carries_key: bool,
    /// How long it runs, in seconds.
    pub duration: u64,
    /// Whether `--expires` was left to its default.
    pub default: bool,
    /// When a rekeyed device's old invite ends, in Unix seconds.
    pub old_invite_until: Option<u64>,
    /// When a named device that needed no renewal ends: its stored standing is what prints.
    pub unchanged: Option<u64>,
}

/// The lines after a new invite.
pub open spec fn issued_words(issued: Issued, device: Seq<char>, until: u64) -> Seq<Seq<char>> {
    let day = date::day(until);
    let length = span::coarsest(issued.duration as nat);
    seq![
        device + " runs "@ + length + " from now, until "@ + day + (if issued.default {
            " (the default; --expires sets 1h to 365d)."@
        } else {
            "."@
        }),
    ] + (match issued.old_invite_until {
        Some(old) => seq![
            device + "'s new key is inside this invite: send it privately. If "@ + device
                + " starts from its invite each time, give it this one the way it got the last (a runner: gh secret set SWOOSH_INVITE). The old invite works until "@
                + date::day(old) + "."@,
        ],
        None => if issued.carries_key {
            seq![
                "anyone holding this invite becomes "@ + device + " until "@ + day
                    + ": send it privately."@,
            ]
        } else {
            seq![]
        },
    }) + (if issued.carries_key {
        seq!["it ends on "@ + day + " and is not renewed on its own"@]
    } else if issued.duration < SHORT_LIVED {
        seq!["it ends on its date and is not renewed on its own, so a leaked copy dies with it"@]
    } else {
        seq![]
    })
}

impl Issued {
    /// An invite bound to a key the device made.
    pub fn bound(duration: u64, default: bool) -> (issued: Self)
        ensures
            issued == (Issued {
                carries_key: false,
                duration,
                default,
                old_invite_until: None,
                unchanged: None,
            }),
    {
        Issued { carries_key: false, duration, default, old_invite_until: None, unchanged: None }
    }

    /// The lines after a new invite: how long it runs, and, for one that carries a key, who it makes the
    /// device and that it is not renewed on its own.
    pub fn lines(&self, device: &str, until: u64) -> (lines: Vec<String>)
        ensures
            text::texts(lines@) == issued_words(*self, device@, until),
    {
        let day = date::day_text(until);
        let mut lines: Vec<String> = Vec::new();
        let mut first = device.to_owned();
        first.append(" runs ");
        first.append(span::humanize(Span::from_secs(self.duration)).as_str());
        first.append(" from now, until ");
        first.append(day.as_str());
        if self.default {
            first.append(" (the default; --expires sets 1h to 365d).");
        } else {
            first.append(".");
        }
        lines.push(first);
        match self.old_invite_until {
            Some(old) => {
                let mut line = device.to_owned();
                line.append("'s new key is inside this invite: send it privately. If ");
                line.append(device);
                line.append(
                    " starts from its invite each time, give it this one the way it got the last (a runner: gh secret set SWOOSH_INVITE). The old invite works until ",
                );
                line.append(date::day_text(old).as_str());
                line.append(".");
                lines.push(line);
            },
            None => {
                if self.carries_key {
                    let mut line = "anyone holding this invite becomes ".to_owned();
                    line.append(device);
                    line.append(" until ");
                    line.append(day.as_str());
                    line.append(": send it privately.");
                    lines.push(line);
                }
            },
        }
        if self.carries_key {
            let mut line = "it ends on ".to_owned();
            line.append(day.as_str());
            line.append(" and is not renewed on its own");
            lines.push(line);
        } else if self.duration < SHORT_LIVED {
            lines.push(
                "it ends on its date and is not renewed on its own, so a leaked copy dies with it".to_owned(),
            );
        }
        assert(text::texts(lines@) =~= issued_words(*self, device@, until));
        lines
    }
}

/// The named device is the first one of that name that was not revoked: a revoked one is passed over
/// whatever its name, another name whatever its state, and there is none only where no such device is.
pub proof fn the_named_device_is_the_first_not_revoked(rows: Seq<Row>, name: Seq<char>) -> (i: int)
    ensures
        live_row(rows, name) matches Some(row) ==> 0 <= i < rows.len() && row == rows[i]
            && row.label@ == name && row.revoked_on == 0 && forall|j: int|
            0 <= j < i ==> (#[trigger] rows[j]).label@ != name || rows[j].revoked_on != 0,
        live_row(rows, name) is None ==> forall|j: int|
            0 <= j < rows.len() ==> (#[trigger] rows[j]).label@ != name || rows[j].revoked_on != 0,
    decreases rows.len(),
{
    if rows.len() == 0 || rows[0].is_live(name) {
        0
    } else {
        let rest = rows.drop_first();
        let k = the_named_device_is_the_first_not_revoked(rest, name);
        assert forall|j: int| 0 < j < rows.len() && (live_row(rows, name) is None || j < k
            + 1) implies (#[trigger] rows[j]).label@ != name || rows[j].revoked_on != 0 by {
            assert(rest[j - 1] == rows[j]);
        }
        k + 1
    }
}

/// A device renews for its own length; one that has none, or is not there, for ninety days.
pub proof fn a_device_renews_for_its_own_length(rows: Seq<Row>, name: Seq<char>)
    ensures
        live_row(rows, name) matches Some(row) ==> renewal_length(rows, name) == if row.duration > 0 {
            row.duration as int
        } else {
            90 * 24 * 60 * 60int
        },
        live_row(rows, name) is None ==> renewal_length(rows, name) == 90 * 24 * 60 * 60,
        renewal_length(rows, name) > 0,
{
}

/// What an ask comes to: a device that keeps the asked key is renewed, whatever the records hold against
/// adding a key; a bare name renews the device it names and is refused without one; a new key rekeys a
/// device that is there and makes one that is not; and what the records hold against adding or rekeying is
/// what is answered.
pub proof fn an_ask_comes_to_one_plan(
    device: Option<Row>,
    name: Seq<char>,
    key: Seq<char>,
    refused: Option<Seq<char>>,
)
    ensures
        ({
            let same = device is Some && device->0.key@ == key;
            let added = planned(device, name, AskView::Add(key), refused);
            let renewed = planned(device, name, AskView::Renew, refused);
            let rekeyed = planned(device, name, AskView::NewKey, refused);
            &&& same ==> added == Ok::<PlanView, Seq<char>>(PlanView::Renew)
            &&& !same && refused is None ==> added == Ok::<PlanView, Seq<char>>(PlanView::Add(key))
            &&& !same && refused is Some ==> added == Err::<PlanView, Seq<char>>(refused->0)
            &&& device is Some ==> renewed == Ok::<PlanView, Seq<char>>(PlanView::Renew)
            &&& device is None ==> renewed == Err::<PlanView, Seq<char>>(no_device_words(name))
            &&& device is None ==> rekeyed == Ok::<PlanView, Seq<char>>(PlanView::Keyed)
            &&& device is Some && refused is None ==> rekeyed == Ok::<PlanView, Seq<char>>(
                PlanView::Rekey,
            )
            &&& device is Some && refused is Some ==> rekeyed == Err::<PlanView, Seq<char>>(
                refused->0,
            )
        }),
{
}

/// A person is warned before the passphrase exactly where there is something to warn of: a new device, and
/// the renewal of one whose date has passed, which names the key it brings back and how to revoke it.
pub proof fn the_warning_comes_where_it_is_owed(
    plan: PlanView,
    device: Option<Row>,
    name: Seq<char>,
    now: u64,
)
    ensures
        plan_words(plan, device, name, now) is Some <==> plan is Add || plan is Keyed || (plan is Renew
            && device is Some && device->0.until <= now),
        plan_words(plan, device, name, now) matches Some(line) ==> text::mentions(
            line,
            "me/"@ + name,
        ),
        plan is Renew && device is Some && device->0.until <= now ==> text::mentions(
            plan_words(plan, device, name, now)->0,
            device->0.key@,
        ) && text::mentions(
            plan_words(plan, device, name, now)->0,
            "swoosh revoke me/"@ + name,
        ) && text::mentions(plan_words(plan, device, name, now)->0, date::day(device->0.until)),
{
    reveal_strlit("me/");
    if plan is Add || plan is Keyed {
        let rest = " will be one of your own devices: it reaches everything your devices serve."@;
        text::lemma_mentions(Seq::empty(), "me/"@ + name, rest);
    }
    if plan is Renew && device is Some && device->0.until <= now {
        let row = device->0;
        let day = date::day(row.until);
        let line = plan_words(plan, device, name, now)->0;
        let who = ". Whatever machine holds "@ + row.key@;
        let what
            = " picks this up the next time it reaches one of your devices. If that is not a machine you still have, stop here and run: swoosh revoke me/"@;
        reveal_strlit("renewing me/");
        reveal_strlit("renewing ");
        assert("renewing me/"@ =~= "renewing "@ + "me/"@);
        let after_name = " ("@ + row.key@ + "), which ended on "@ + day + who + what + name;
        assert(line =~= "renewing "@ + ("me/"@ + name) + after_name);
        text::lemma_mentions("renewing "@, "me/"@ + name, after_name);
        let after_key = "), which ended on "@ + day + who + what + name;
        assert(line =~= ("renewing me/"@ + name + " ("@) + row.key@ + after_key);
        text::lemma_mentions("renewing me/"@ + name + " ("@, row.key@, after_key);
        let before_day = "renewing me/"@ + name + " ("@ + row.key@ + "), which ended on "@;
        assert(line =~= before_day + day + (who + what + name));
        text::lemma_mentions(before_day, day, who + what + name);
        reveal_strlit(
            " picks this up the next time it reaches one of your devices. If that is not a machine you still have, stop here and run: swoosh revoke me/",
        );
        reveal_strlit(
            " picks this up the next time it reaches one of your devices. If that is not a machine you still have, stop here and run: ",
        );
        reveal_strlit("swoosh revoke me/");
        let stop
            = " picks this up the next time it reaches one of your devices. If that is not a machine you still have, stop here and run: "@;
        assert(what =~= stop + "swoosh revoke me/"@);
        assert(line =~= (before_day + day + who + stop) + ("swoosh revoke me/"@ + name));
        text::lemma_mentions(
            before_day + day + who + stop,
            "swoosh revoke me/"@ + name,
            Seq::empty(),
        );
    }
}

/// What follows an invite says how long it runs and until when, marks the default as one, and warns of a
/// key that is inside and of an invite that is not renewed on its own: one that carries a key, or one shorter
/// than thirty days.
pub proof fn what_follows_an_invite_fits_it(issued: Issued, device: Seq<char>, until: u64)
    ensures
        ({
            let lines = issued_words(issued, device, until);
            let secret = issued.carries_key || issued.old_invite_until is Some;
            let ends = issued.carries_key || issued.duration < 30 * 24 * 60 * 60;
            &&& lines.len() == 1 + (if secret {
                1int
            } else {
                0
            }) + (if ends {
                1int
            } else {
                0
            })
            &&& lines[0] == device + " runs "@ + span::coarsest(issued.duration as nat)
                + " from now, until "@ + date::day(until) + (if issued.default {
                " (the default; --expires sets 1h to 365d)."@
            } else {
                "."@
            })
            &&& secret ==> text::mentions(lines[1], device)
            &&& issued.old_invite_until matches Some(old) ==> text::mentions(
                lines[1],
                date::day(old),
            )
            &&& issued.carries_key ==> text::mentions(lines.last(), date::day(until))
        }),
{
    let day = date::day(until);
    let lines = issued_words(issued, device, until);
    match issued.old_invite_until {
        Some(old) => {
            let tail = "'s new key is inside this invite: send it privately. If "@ + device
                + " starts from its invite each time, give it this one the way it got the last (a runner: gh secret set SWOOSH_INVITE). The old invite works until "@
                + date::day(old) + "."@;
            assert(lines[1] =~= device + tail);
            text::lemma_mentions(Seq::empty(), device, tail);
            assert(Seq::<char>::empty() + device =~= device);
            let front = device + "'s new key is inside this invite: send it privately. If "@ + device
                + " starts from its invite each time, give it this one the way it got the last (a runner: gh secret set SWOOSH_INVITE). The old invite works until "@;
            text::lemma_mentions(front, date::day(old), "."@);
        },
        None => {
            if issued.carries_key {
                let tail = " until "@ + day + ": send it privately."@;
                assert(lines[1] =~= "anyone holding this invite becomes "@ + device + tail);
                text::lemma_mentions("anyone holding this invite becomes "@, device, tail);
            }
        },
    }
    if issued.carries_key {
        text::lemma_mentions("it ends on "@, day, " and is not renewed on its own"@);
    }
}

/// Before a root is made here, this machine's own key and a renewal are refused, and nothing else is.
pub proof fn the_first_root_takes_any_other_device(
    own: Seq<char>,
    suggested: Seq<char>,
    name: Seq<char>,
    key: Seq<char>,
)
    ensures
        first_root_refusal(own, suggested, name, AskView::Add(key)) is Some <==> key == own,
        first_root_refusal(own, suggested, name, AskView::Renew) is Some,
        first_root_refusal(own, suggested, name, AskView::NewKey) is None,
{
}

/// A name is a contact's exactly where it stands in the address book and is not the root's own.
pub proof fn only_a_persons_name_is_a_contacts(petnames: Seq<Seq<char>>, name: Seq<char>)
    ensures
        is_contact(petnames, name) <==> petnames.contains(name) && name != "me"@,
{
}

} // verus!
