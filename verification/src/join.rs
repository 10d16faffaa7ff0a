//! Joining: making this machine one of a root's devices, from an invite.
//!
//! The order is fixed. The invite is checked alone, then this machine's standing, and only then is
//! anything written. Every refusal comes before any write.

use vstd::prelude::*;
use vstd::string::StringExecFns;

use crate::date;
use crate::dial;
use crate::dial::BindRole;
use crate::span::Moment;
use crate::standing;
use crate::standing::Standing;
use crate::text;

verus! {

broadcast use {vstd::seq::group_seq_axioms, vstd::string::group_string_axioms};

/// The most bytes of stdin read as an invite.
pub const READ_CAP: u64 = 4096;

/// Make this machine one of your devices, from an invite.
#[derive(Debug)]
pub struct JoinCmd {
    /// The invite, or `-` to read it from stdin, as without one.
    pub invite: Option<String>,
    /// Join a different root than the one this machine is on.
    pub switch: bool,
}

/// The first exchange after a join, with the machine that made the invite.
#[derive(Debug)]
pub struct JoinPull {
    pub from: String,
}

impl JoinPull {
    /// The exchange dials as this machine.
    pub fn bind_role(&self) -> (role: BindRole)
        ensures
            role@ == dial::as_family(None, None),
    {
        BindRole::family(None, &None)
    }
}

/// How many `.`-separated fields an invite's text has. Its prefix and the space around it hold no `.`.
pub open spec fn field_count(text: Seq<char>) -> nat {
    text::count(text, '.') + 1
}

/// The fields of an invite's text, counted without decoding any.
pub fn fields(text: &str) -> (n: usize)
    requires
        text@.len() < usize::MAX,
    ensures
        n == field_count(text@),
{
    text::count_char(text, '.') + 1
}

/// The invite a command line gives: its argument, unless that is `-`.
pub open spec fn argument(invite: Option<String>) -> Option<Seq<char>> {
    match invite {
        Some(text) => if text@ == "-"@ {
            None
        } else {
            Some(text@)
        },
        None => None,
    }
}

/// The lines a bare join prints at a terminal: this machine's key, and what to type where the root is
/// kept.
pub open spec fn paste_words(key: Seq<char>, name: Option<Seq<char>>) -> Seq<Seq<char>> {
    seq![
        "This machine's key: "@ + key,
        "On the machine where your root is kept:  swoosh invite "@ + (match name {
            Some(name) => name,
            None => "<name>"@,
        }) + " "@ + key,
        "Then paste the invite here:"@,
    ]
}

/// The lines a bare join prints at a terminal, with the name this machine suggests, if any.
pub fn paste_lines(key: &str, name: Option<&str>) -> (lines: Vec<String>)
    ensures
        text::texts(lines@) == paste_words(
            key@,
            match name {
                Some(name) => Some(name@),
                None => None,
            },
        ),
{
    let mut first = "This machine's key: ".to_owned();
    first.append(key);
    let mut second = "On the machine where your root is kept:  swoosh invite ".to_owned();
    match name {
        Some(name) => second.append(name),
        None => second.append("<name>"),
    }
    second.append(" ");
    second.append(key);
    let mut lines: Vec<String> = Vec::new();
    lines.push(first);
    lines.push(second);
    lines.push("Then paste the invite here:".to_owned());
    assert(text::texts(lines@) =~= paste_words(
        key@,
        match name {
            Some(name) => Some(name@),
            None => None,
        },
    ));
    lines
}

/// What an invite says, once it is read.
#[derive(Debug)]
pub struct Invite {
    /// The name the invite gives this machine: a hint.
    pub name: String,
    /// The machine that made the invite: a hint of whom to ask first.
    pub from: String,
    /// The root that signed the standing.
    pub root: String,
    /// The standing, as it is written.
    pub standing: String,
    /// The key the invite carries, where it carries one.
    pub carried: Option<String>,
    /// When the standing ends, where that can be read.
    pub until: Option<Moment>,
}

/// The key this machine has.
#[derive(Debug)]
pub struct StoredKey {
    pub node: String,
    /// Whether it has a passphrase.
    pub locked: bool,
}

/// What is known of the invite and of this machine when an invite is checked.
#[derive(Debug)]
pub struct Arrival {
    pub invite: Invite,
    pub stored: Option<StoredKey>,
    /// Whether the standing binds this machine's key at its root, asked at the standing's own end.
    pub bound: bool,
    /// Whether the root was revoked on this machine.
    pub disabled: bool,
    /// Whether a person can be asked for a passphrase.
    pub terminal: bool,
    pub now: Moment,
}

/// The key this machine joins under: the one the invite carries, or the one it has.
pub open spec fn own_key(at: Arrival) -> Option<Seq<char>> {
    match (at.invite.carried, at.stored) {
        (Some(carried), _) => Some(carried@),
        (None, Some(stored)) => Some(stored.node@),
        (None, None) => None,
    }
}

/// Whether this machine has a key other than the one the invite carries.
pub open spec fn has_another_key(at: Arrival) -> bool {
    match (at.invite.carried, at.stored) {
        (Some(carried), Some(stored)) => stored.node@ != carried@,
        _ => false,
    }
}

/// Whether this machine's key has a passphrase.
pub open spec fn is_locked(at: Arrival) -> bool {
    at.stored is Some && at.stored->0.locked
}

/// Why the invite alone is refused, if it is; the first reason that holds.
pub open spec fn invite_refusal(at: Arrival) -> Option<Seq<char>> {
    let name = at.invite.name@;
    let root = at.invite.root@;
    if has_another_key(at) {
        let stored = at.stored->0.node@;
        Some(
            "this invite carries its own key, and this machine already has one ("@ + stored
                + "). Use it on a fresh machine (an empty --home <dir>), or invite this machine's key: swoosh invite "@
                + name + " "@ + stored,
        )
    } else if own_key(at) is None {
        Some(
            "this invite is for an existing machine's key, and this machine has no key yet. Ask for an invite with its key inside: swoosh invite "@
                + name + " --new-key"@,
        )
    } else if own_key(at)->0 == root {
        Some("a machine cannot be its own root's device."@)
    } else if at.invite.until is None {
        Some("this is not a swoosh invite"@)
    } else if !at.bound && at.invite.carried is Some {
        Some("this is not a swoosh invite"@)
    } else if !at.bound {
        Some(
            "this invite is for another machine's key; this machine is "@ + own_key(at)->0
                + ". Invite this machine: swoosh invite "@ + name + " "@ + own_key(at)->0,
        )
    } else if at.invite.until->0@ <= at.now@ {
        Some(
            "this invite ended on "@ + date::day(standing::unix_secs(at.invite.until->0@) as u64)
                + ". With your root: swoosh invite "@ + name
                + " (for a device that starts from its invite each time: swoosh invite "@ + name
                + " --new-key), then join what it prints."@,
        )
    } else if at.disabled {
        Some("root:"@ + root + " was revoked on this machine; recovery is a new root."@)
    } else if is_locked(at) && at.invite.carried is None && !at.terminal {
        Some(
            "this machine's key has a passphrase: run this with -t after --, and paste the invite at the prompt"@,
        )
    } else {
        None
    }
}

/// Check the invite alone: the key this machine joins under, or why the invite is refused.
pub fn check_invite(at: &Arrival) -> (own: Result<String, String>)
    ensures
        match own {
            Ok(key) => invite_refusal(*at) is None && own_key(*at) == Some(key@),
            Err(line) => invite_refusal(*at) == Some(line@),
        },
{
    let name = at.invite.name.as_str();
    let root = at.invite.root.as_str();
    let own: String = match (&at.invite.carried, &at.stored) {
        (Some(carried), Some(stored)) => {
            if !text::same(stored.node.as_str(), carried.as_str()) {
                let mut line = "this invite carries its own key, and this machine already has one (".to_owned();
                line.append(stored.node.as_str());
                line.append(
                    "). Use it on a fresh machine (an empty --home <dir>), or invite this machine's key: swoosh invite ",
                );
                line.append(name);
                line.append(" ");
                line.append(stored.node.as_str());
                return Err(line);
            }
            carried.clone()
        },
        (Some(carried), None) => carried.clone(),
        (None, Some(stored)) => stored.node.clone(),
        (None, None) => {
            let mut line = "this invite is for an existing machine's key, and this machine has no key yet. Ask for an invite with its key inside: swoosh invite ".to_owned();
            line.append(name);
            line.append(" --new-key");
            return Err(line);
        },
    };
    if text::same(own.as_str(), root) {
        return Err("a machine cannot be its own root's device.".to_owned());
    }
    let until: Moment = match at.invite.until {
        Some(until) => until,
        None => {
            return Err("this is not a swoosh invite".to_owned());
        },
    };
    if !at.bound {
        if at.invite.carried.is_some() {
            return Err("this is not a swoosh invite".to_owned());
        }
        let mut line = "this invite is for another machine's key; this machine is ".to_owned();
        line.append(own.as_str());
        line.append(". Invite this machine: swoosh invite ");
        line.append(name);
        line.append(" ");
        line.append(own.as_str());
        return Err(line);
    }
    if !until.is_after(&at.now) {
        let mut line = "this invite ended on ".to_owned();
        line.append(date::day_text(standing::unix(until)).as_str());
        line.append(". With your root: swoosh invite ");
        line.append(name);
        line.append(" (for a device that starts from its invite each time: swoosh invite ");
        line.append(name);
        line.append(" --new-key), then join what it prints.");
        return Err(line);
    }
    if at.disabled {
        let mut line = "root:".to_owned();
        line.append(root);
        line.append(" was revoked on this machine; recovery is a new root.");
        return Err(line);
    }
    let locked: bool = match &at.stored {
        Some(stored) => stored.locked,
        None => false,
    };
    if locked && at.invite.carried.is_none() && !at.terminal {
        return Err(
            "this machine's key has a passphrase: run this with -t after --, and paste the invite at the prompt".to_owned(),
        );
    }
    Ok(own)
}

/// Why this machine's standing refuses the invite, if it does.
pub open spec fn standing_refusal(
    standing: Standing,
    switch: bool,
    root: Seq<char>,
    name: Seq<char>,
    until: Moment,
) -> Option<Seq<char>> {
    match standing {
        Standing::Unpinned => None,
        Standing::Device { pin, until: held } => if pin@ == root && until@ < held@ {
            Some(
                "this invite ends "@ + date::day(standing::unix_secs(until@) as u64)
                    + ", before this machine's current date "@ + date::day(
                    standing::unix_secs(held@) as u64,
                )
                    + ", so it changes nothing here. To end this device sooner: with your root, swoosh revoke me/"@
                    + name + "; then here, swoosh leave --new-key, and invite the new key."@,
            )
        } else if pin@ != root && !switch {
            Some(
                "this machine trusts root:"@ + pin@ + "; this invite is from root:"@ + root
                    + ". To move this machine to it: swoosh join --switch."@,
            )
        } else {
            None
        },
        Standing::HoldsRoot => Some(
            "your root is kept on this machine, and a machine that keeps a root is that root's device and no other's. To move your root off it: swoosh move-root <dir>"@,
        ),
        Standing::InterruptedMint { line } => Some(line@),
        Standing::Damaged { line, trusted } => Some(line@),
    }
}

/// The root this machine was a device of before the join.
pub open spec fn was_pinned(standing: Standing) -> Option<Seq<char>> {
    match standing {
        Standing::Device { pin, until } => Some(pin@),
        _ => None,
    }
}

/// Check this machine's standing: the root it was a device of, or why the invite is refused here.
pub fn check_standing(
    standing: &Standing,
    switch: bool,
    root: &str,
    name: &str,
    until: Moment,
) -> (was: Result<Option<String>, String>)
    ensures
        match was {
            Ok(None) => standing_refusal(*standing, switch, root@, name@, until) is None
                && was_pinned(*standing) is None,
            Ok(Some(pin)) => standing_refusal(*standing, switch, root@, name@, until) is None
                && was_pinned(*standing) == Some(pin@),
            Err(line) => standing_refusal(*standing, switch, root@, name@, until) == Some(line@),
        },
{
    match standing {
        Standing::Unpinned => Ok(None),
        Standing::Device { pin, until: held } => {
            let same_root: bool = text::same(pin.as_str(), root);
            if same_root && held.is_after(&until) {
                let mut line = "this invite ends ".to_owned();
                line.append(date::day_text(standing::unix(until)).as_str());
                line.append(", before this machine's current date ");
                line.append(date::day_text(standing::unix(*held)).as_str());
                line.append(
                    ", so it changes nothing here. To end this device sooner: with your root, swoosh revoke me/",
                );
                line.append(name);
                line.append("; then here, swoosh leave --new-key, and invite the new key.");
                return Err(line);
            }
            if !same_root && !switch {
                let mut line = "this machine trusts root:".to_owned();
                line.append(pin.as_str());
                line.append("; this invite is from root:");
                line.append(root);
                line.append(". To move this machine to it: swoosh join --switch.");
                return Err(line);
            }
            Ok(Some(pin.clone()))
        },
        Standing::HoldsRoot => Err(
            "your root is kept on this machine, and a machine that keeps a root is that root's device and no other's. To move your root off it: swoosh move-root <dir>".to_owned(),
        ),
        Standing::InterruptedMint { line } => Err(line.clone()),
        Standing::Damaged { line, .. } => Err(line.clone()),
    }
}

/// The line a change of root prints while `serve` runs.
pub open spec fn sessions_end_words(was: Seq<char>) -> Seq<char> {
    "sessions this machine admitted under root root:"@ + was
        + " end now, including one you reached it through as a device of that root. A session through a link this machine issued stays open."@
}

/// The line a change of root prints while `serve` runs: what it cut, and what it did not.
pub fn sessions_end(was: &str) -> (line: String)
    ensures
        line@ == sessions_end_words(was@),
{
    let mut line = "sessions this machine admitted under root root:".to_owned();
    line.append(was);
    line.append(
        " end now, including one you reached it through as a device of that root. A session through a link this machine issued stays open.",
    );
    line
}

/// What a join writes and says.
#[derive(Debug)]
pub struct Joined {
    /// The root this machine is now a device of.
    pub root: String,
    /// The standing it is that device by, as it is written.
    pub standing: String,
    /// The key it is that device under.
    pub own: String,
    /// The name the invite gives it.
    pub name: String,
    /// The machine that made the invite.
    pub from: String,
    /// Whether the key the invite carries is written as this machine's.
    pub writes_key: bool,
    /// Whether the pin changes: this machine was not a device of that root.
    pub pin_changes: bool,
    /// What is said of it.
    pub lines: Vec<String>,
    /// The machine to exchange with first, unless it is this one.
    pub ask_first: Option<String>,
}

/// One write of a join.
#[derive(Debug)]
pub enum JoinWrite {
    /// The key the invite carries, as this machine's.
    Key { own: String },
    /// This machine's standing under the root, and the root itself where it changes.
    Standing {
        root: String,
        standing: String,
        own: String,
        name: String,
        from: String,
        pin_changes: bool,
    },
}

pub ghost enum JoinWriteView {
    Key { own: Seq<char> },
    Standing {
        root: Seq<char>,
        standing: Seq<char>,
        own: Seq<char>,
        name: Seq<char>,
        from: Seq<char>,
        pin_changes: bool,
    },
}

impl View for JoinWrite {
    type V = JoinWriteView;

    open spec fn view(&self) -> JoinWriteView {
        match self {
            JoinWrite::Key { own } => JoinWriteView::Key { own: own@ },
            JoinWrite::Standing {
                root,
                standing,
                own,
                name,
                from,
                pin_changes,
            } => JoinWriteView::Standing {
                root: root@,
                standing: standing@,
                own: own@,
                name: name@,
                from: from@,
                pin_changes: *pin_changes,
            },
        }
    }
}

impl Joined {
    /// What is written, in order: the key where the invite carries one, then the standing under it.
    pub open spec fn written(self) -> Seq<JoinWriteView> {
        (if self.writes_key {
            seq![JoinWriteView::Key { own: self.own@ }]
        } else {
            seq![]
        }) + seq![
            JoinWriteView::Standing {
                root: self.root@,
                standing: self.standing@,
                own: self.own@,
                name: self.name@,
                from: self.from@,
                pin_changes: self.pin_changes,
            },
        ]
    }

    /// What is written, in order.
    pub fn writes(&self) -> (writes: Vec<JoinWrite>)
        ensures
            writes@.map_values(|w: JoinWrite| w@) == self.written(),
    {
        let mut writes: Vec<JoinWrite> = Vec::new();
        if self.writes_key {
            writes.push(JoinWrite::Key { own: self.own.clone() });
        }
        writes.push(
            JoinWrite::Standing {
                root: self.root.clone(),
                standing: self.standing.clone(),
                own: self.own.clone(),
                name: self.name.clone(),
                from: self.from.clone(),
                pin_changes: self.pin_changes,
            },
        );
        assert(writes@.map_values(|w: JoinWrite| w@) =~= self.written());
        writes
    }
}

/// Why a join is refused, if it is: the invite first, then this machine's standing, then a serve that is
/// admitting.
pub open spec fn refusal(
    switch: bool,
    at: Arrival,
    standing: Standing,
    admitting: bool,
) -> Option<Seq<char>> {
    if invite_refusal(at) is Some {
        invite_refusal(at)
    } else if standing_refusal(
        standing,
        switch,
        at.invite.root@,
        at.invite.name@,
        at.invite.until->0,
    ) is Some {
        standing_refusal(standing, switch, at.invite.root@, at.invite.name@, at.invite.until->0)
    } else if admitting {
        Some("stop swoosh serve first."@)
    } else {
        None
    }
}

/// The lines after a join.
pub open spec fn joined_words(
    root: Seq<char>,
    until: Moment,
    was: Option<Seq<char>>,
    serving: bool,
    locked: bool,
) -> Seq<Seq<char>> {
    let moved = was is Some && was->0 != root;
    seq![
        "joined root root:"@ + root + ": this machine is its device until "@ + date::day(
            standing::unix_secs(until@) as u64,
        ) + "."@,
    ] + (if moved {
        seq!["this machine now trusts root root:"@ + root + " (was root:"@ + was->0 + ")."@]
    } else {
        seq![]
    }) + (if moved && serving {
        seq![sessions_end_words(was->0)]
    } else {
        seq![]
    }) + seq![
        "Check that root:"@ + root
            + " is the root: line on the machine that keeps your root; the invite alone does not prove who sent it."@,
    ] + (if was is None && !locked {
        seq!["this machine's key is not locked; swoosh lock locks it."@]
    } else {
        seq![]
    })
}

fn joined_lines(
    root: &str,
    until: Moment,
    was: &Option<String>,
    serving: bool,
    locked: bool,
) -> (lines: Vec<String>)
    ensures
        text::texts(lines@) == joined_words(
            root@,
            until,
            match *was {
                Some(pin) => Some(pin@),
                None => None,
            },
            serving,
            locked,
        ),
{
    let mut lines: Vec<String> = Vec::new();
    let mut first = "joined root root:".to_owned();
    first.append(root);
    first.append(": this machine is its device until ");
    first.append(date::day_text(standing::unix(until)).as_str());
    first.append(".");
    lines.push(first);
    if let Some(pin) = was {
        if !text::same(pin.as_str(), root) {
            let mut line = "this machine now trusts root root:".to_owned();
            line.append(root);
            line.append(" (was root:");
            line.append(pin.as_str());
            line.append(").");
            lines.push(line);
            if serving {
                lines.push(sessions_end(pin.as_str()));
            }
        }
    }
    let mut check = "Check that root:".to_owned();
    check.append(root);
    check.append(
        " is the root: line on the machine that keeps your root; the invite alone does not prove who sent it.",
    );
    lines.push(check);
    if was.is_none() && !locked {
        lines.push("this machine's key is not locked; swoosh lock locks it.".to_owned());
    }
    assert(text::texts(lines@) =~= joined_words(
        root@,
        until,
        match *was {
            Some(pin) => Some(pin@),
            None => None,
        },
        serving,
        locked,
    ));
    lines
}

impl JoinCmd {
    /// The invite the command line gives, or nothing where it is read from stdin. An argument that
    /// carries a key is refused at its field count, before anything in it is decoded.
    pub fn read_invite(&self) -> (given: Result<Option<String>, String>)
        ensures
            match given {
                Ok(Some(text)) => argument(self.invite) == Some(text@) && field_count(text@) != 5,
                Ok(None) => argument(self.invite) is None,
                Err(line) => argument(self.invite) is Some && field_count(
                    argument(self.invite)->0,
                ) == 5 && line@
                    == "this invite contains a private key; pass it on stdin: swoosh join"@,
            },
    {
        match &self.invite {
            Some(text) => {
                if text::same(text.as_str(), "-") {
                    return Ok(None);
                }
                if text::count_char(text.as_str(), '.') == 4 {
                    return Err(
                        "this invite contains a private key; pass it on stdin: swoosh join".to_owned(),
                    );
                }
                Ok(Some(text.clone()))
            },
            None => Ok(None),
        }
    }

    /// Decide a join. `admitting` is whether a serve holds the lock a join takes, and `serving` whether
    /// one runs at all.
    pub fn decide(&self, at: &Arrival, standing: &Standing, admitting: bool, serving: bool) -> (joined:
        Result<Joined, String>)
        ensures
            match joined {
                Ok(joined) => {
                    &&& refusal(self.switch, *at, *standing, admitting) is None
                    &&& joined.root@ == at.invite.root@
                    &&& joined.standing@ == at.invite.standing@
                    &&& joined.name@ == at.invite.name@
                    &&& joined.from@ == at.invite.from@
                    &&& own_key(*at) == Some(joined.own@)
                    &&& joined.writes_key == (at.invite.carried is Some)
                    &&& joined.pin_changes == (was_pinned(*standing) != Some(at.invite.root@))
                    &&& text::texts(joined.lines@) == joined_words(
                        at.invite.root@,
                        at.invite.until->0,
                        was_pinned(*standing),
                        serving,
                        is_locked(*at),
                    )
                    &&& match joined.ask_first {
                        Some(from) => from@ == at.invite.from@ && from@ != joined.own@,
                        None => at.invite.from@ == joined.own@,
                    }
                },
                Err(line) => refusal(self.switch, *at, *standing, admitting) == Some(line@),
            },
    {
        let own = match check_invite(at) {
            Ok(own) => own,
            Err(line) => {
                return Err(line);
            },
        };
        let root = at.invite.root.as_str();
        let until: Moment = match at.invite.until {
            Some(until) => until,
            None => {
                return Err("this is not a swoosh invite".to_owned());
            },
        };
        let was = match check_standing(
            standing,
            self.switch,
            root,
            at.invite.name.as_str(),
            until,
        ) {
            Ok(was) => was,
            Err(line) => {
                return Err(line);
            },
        };
        if admitting {
            return Err("stop swoosh serve first.".to_owned());
        }
        let locked: bool = match &at.stored {
            Some(stored) => stored.locked,
            None => false,
        };
        let pin_changes: bool = match &was {
            Some(pin) => !text::same(pin.as_str(), root),
            None => true,
        };
        let lines = joined_lines(root, until, &was, serving, locked);
        let ask_first = if text::same(at.invite.from.as_str(), own.as_str()) {
            None
        } else {
            Some(at.invite.from.clone())
        };
        Ok(
            Joined {
                root: root.to_owned(),
                standing: at.invite.standing.clone(),
                own,
                name: at.invite.name.clone(),
                from: at.invite.from.clone(),
                writes_key: at.invite.carried.is_some(),
                pin_changes,
                lines,
                ask_first,
            },
        )
    }
}

/// Whether two invites differ at most in their hints: the name they give and the machine they came from.
pub open spec fn same_but_for_hints(a: Arrival, b: Arrival) -> bool {
    &&& a.invite.root@ == b.invite.root@
    &&& a.invite.standing@ == b.invite.standing@
    &&& a.invite.carried == b.invite.carried
    &&& a.invite.until == b.invite.until
    &&& a.stored == b.stored
    &&& a.bound == b.bound
    &&& a.disabled == b.disabled
    &&& a.terminal == b.terminal
    &&& a.now == b.now
}

/// The hints of an invite change no trust: with another name or another machine in it, the same invite is
/// admitted or refused alike, for the same key.
pub proof fn hints_change_no_trust(
    switch: bool,
    a: Arrival,
    b: Arrival,
    standing: Standing,
    admitting: bool,
)
    requires
        same_but_for_hints(a, b),
    ensures
        refusal(switch, a, standing, admitting) is None <==> refusal(
            switch,
            b,
            standing,
            admitting,
        ) is None,
        own_key(a) == own_key(b),
{
}

/// A carried key is written before the standing that it holds, and nothing follows the standing.
pub proof fn a_standing_is_written_last(joined: Joined, i: int)
    requires
        0 <= i < joined.written().len(),
    ensures
        joined.written()[i] is Standing <==> i == joined.written().len() - 1,
        joined.written()[i] is Key <==> joined.writes_key && i == 0,
{
}

/// A join never shortens a standing: one that goes through on a device of the same root ends no earlier
/// than the standing it replaces.
pub proof fn a_join_never_shortens_a_standing(
    switch: bool,
    at: Arrival,
    standing: Standing,
    admitting: bool,
    pin: String,
    held: Moment,
)
    requires
        standing == (Standing::Device { pin, until: held }),
        pin@ == at.invite.root@,
        refusal(switch, at, standing, admitting) is None,
    ensures
        at.invite.until is Some,
        at.invite.until->0@ >= held@,
        at.invite.until->0@ > at.now@,
{
}

/// A machine changes its root only when asked to: a join that goes through on a device of another root
/// was told to switch. What the old standing had left does not matter then.
pub proof fn a_root_changes_only_on_a_switch(
    switch: bool,
    at: Arrival,
    standing: Standing,
    admitting: bool,
)
    requires
        refusal(switch, at, standing, admitting) is None,
        was_pinned(standing) is Some,
        was_pinned(standing)->0 != at.invite.root@,
    ensures
        switch,
{
}

/// What goes through: a join needs a key, an invite that binds it at another root, a date that has not
/// passed, a root that was not revoked here, and a machine that keeps no root and no damaged home.
pub proof fn a_join_that_goes_through_is_whole(
    switch: bool,
    at: Arrival,
    standing: Standing,
    admitting: bool,
)
    requires
        refusal(switch, at, standing, admitting) is None,
    ensures
        own_key(at) is Some,
        own_key(at)->0 != at.invite.root@,
        at.bound,
        at.invite.until is Some,
        at.invite.until->0@ > at.now@,
        !at.disabled,
        !admitting,
        standing is Unpinned || standing is Device,
{
}

/// An invite is joined exactly where nothing stands against it. Its standing binds, at a root that is not the
/// machine itself and was not revoked here, the key it carries or the key this machine has, and where there
/// are both they are one; it ends, later than now; a locked key without a terminal has its key inside; no
/// serve is admitting; and this machine is no root's device, or one of this root that the invite does not
/// shorten, or one of another root and told to switch.
pub proof fn an_invite_is_joined_where_nothing_stands_against_it(
    switch: bool,
    at: Arrival,
    standing: Standing,
    admitting: bool,
)
    ensures
        refusal(switch, at, standing, admitting) is None <==> {
            &&& at.invite.carried is Some || at.stored is Some
            &&& at.invite.carried is Some && at.stored is Some ==> at.invite.carried->0@
                == at.stored->0.node@
            &&& at.invite.carried matches Some(key) ==> key@ != at.invite.root@
            &&& at.stored matches Some(key) ==> key.node@ != at.invite.root@
            &&& at.bound
            &&& at.invite.until is Some
            &&& at.invite.until->0@ > at.now@
            &&& !at.disabled
            &&& at.stored is Some && at.stored->0.locked ==> at.invite.carried is Some || at.terminal
            &&& !admitting
            &&& standing is Unpinned || standing is Device
            &&& standing matches Standing::Device { pin, until: held } ==> if pin@ == at.invite.root@ {
                at.invite.until->0@ >= held@
            } else {
                switch
            }
        },
        at.invite.carried matches Some(key) ==> own_key(at) == Some(key@),
        at.invite.carried is None ==> (at.stored matches Some(key) ==> own_key(at) == Some(key.node@)),
        was_pinned(standing) matches Some(root) ==> (standing matches Standing::Device { pin, until }
            && pin@ == root),
        was_pinned(standing) is None <==> !(standing is Device),
{
}

/// A refusal of what this machine itself says is that very line, and a serve that is admitting is told to
/// stop only where nothing else stands against the join.
pub proof fn a_home_refuses_in_its_own_words(
    switch: bool,
    at: Arrival,
    line: String,
    trusted: Option<String>,
)
    requires
        invite_refusal(at) is None,
    ensures
        refusal(switch, at, Standing::InterruptedMint { line }, true) == Some(line@),
        refusal(switch, at, Standing::Damaged { line, trusted }, true) == Some(line@),
        refusal(switch, at, Standing::Unpinned, true) == Some("stop swoosh serve first."@),
        refusal(switch, at, Standing::Unpinned, false) is None,
{
}

/// What a join says: which root and until when, that it moved and which sessions that ends where it did, how
/// to check the root, and that the key is not locked where a new device has one that is not.
pub proof fn a_join_says_what_it_did(
    root: Seq<char>,
    until: Moment,
    was: Option<Seq<char>>,
    serving: bool,
    locked: bool,
)
    ensures
        ({
            let lines = joined_words(root, until, was, serving, locked);
            let moved = was is Some && was->0 != root;
            &&& lines.len() == 2 + (if moved {
                1int
            } else {
                0
            }) + (if moved && serving {
                1int
            } else {
                0
            }) + (if was is None && !locked {
                1int
            } else {
                0
            })
            &&& lines[0] == "joined root root:"@ + root + ": this machine is its device until "@
                + date::day(standing::unix_secs(until@) as u64) + "."@
            &&& moved ==> text::mentions(lines[1], root) && text::mentions(lines[1], was->0)
            &&& moved && serving ==> text::mentions(lines[2], was->0)
            &&& was is None && !locked ==> lines.last()
                == "this machine's key is not locked; swoosh lock locks it."@
            &&& !(was is None && !locked) ==> text::mentions(lines.last(), root)
        }),
{
    let moved = was is Some && was->0 != root;
    let lines = joined_words(root, until, was, serving, locked);
    let check = "Check that root:"@ + root
        + " is the root: line on the machine that keeps your root; the invite alone does not prove who sent it."@;
    text::lemma_mentions(
        "Check that root:"@,
        root,
        " is the root: line on the machine that keeps your root; the invite alone does not prove who sent it."@,
    );
    if moved {
        let a = "this machine now trusts root root:"@;
        let b = " (was root:"@;
        let c = ")."@;
        assert(a + root + b + was->0 + c =~= a + root + (b + was->0 + c));
        text::lemma_mentions(a, root, b + was->0 + c);
        text::lemma_mentions(a + root + b, was->0, c);
        text::lemma_mentions(
            "sessions this machine admitted under root root:"@,
            was->0,
            " end now, including one you reached it through as a device of that root. A session through a link this machine issued stays open."@,
        );
    }
    if !(was is None && !locked) {
        assert(lines.last() == check);
    }
}

/// The fields of an invite are what stands between its dots: each dot begins one more.
pub proof fn each_dot_begins_a_field(a: Seq<char>, b: Seq<char>)
    ensures
        field_count(a + seq!['.'] + b) == field_count(a) + field_count(b),
        !a.contains('.') ==> field_count(a) == 1,
        field_count(Seq::<char>::empty()) == 1,
{
    text::counts_add_up(a, seq!['.'], '.', '.');
    text::counts_add_up(a + seq!['.'], b, '.', '.');
    if !a.contains('.') {
        lemma_no_dot(a);
    }
}

proof fn lemma_no_dot(a: Seq<char>)
    requires
        !a.contains('.'),
    ensures
        text::count(a, '.') == 0,
    decreases a.len(),
{
    if a.len() > 0 {
        assert forall|i: int| 0 <= i < a.drop_last().len() implies a.drop_last()[i] != '.' by {
            assert(a.drop_last()[i] == a[i]);
        }
        lemma_no_dot(a.drop_last());
        assert(a[a.len() - 1] != '.');
    }
}

/// An argument is the invite, unless it is a lone dash, which asks for stdin as none does.
pub proof fn a_dash_asks_for_stdin(invite: Option<String>)
    ensures
        argument(invite) is Some <==> invite is Some && invite->0@ != "-"@,
        argument(invite) matches Some(text) ==> text == invite->0@,
{
}

} // verus!
