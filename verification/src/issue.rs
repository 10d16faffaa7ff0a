//! The course of one invite: what to do next, for each answer of the outside.
//!
//! An act starts by reading the command line, asks for the address book, this machine's standing, the
//! stored standing of the named device, and the root's records, in that order, and refuses at the first
//! of them that stands against it. Only then is the root unlocked. What is signed is written before the
//! invite prints, and the invite prints before anything is offered to another device.

use vstd::prelude::*;
use vstd::string::StringExecFns;

use crate::invite;
use crate::invite::Ask;
use crate::invite::AskView;
use crate::invite::InviteCmd;
use crate::invite::Issued;
use crate::invite::KeyFault;
use crate::invite::Plan;
use crate::invite::PlanView;
use crate::invite::Row;
use crate::standing::Standing;
use crate::text;

verus! {

broadcast use {vstd::seq::group_seq_axioms, vstd::string::group_string_axioms};

/// What the root signs.
#[derive(Debug)]
pub enum Sign {
    /// A standing for a key the device made.
    Standing { key: String, duration: u64 },
    /// A standing for a key the root makes.
    Keyed { duration: u64 },
    /// A new key for the named device.
    Rekey { duration: u64 },
    /// A renewal of the named device, for this long, or for its own length.
    Renew { expires: Option<u64> },
}

pub ghost enum SignView {
    Standing { key: Seq<char>, duration: u64 },
    Keyed { duration: u64 },
    Rekey { duration: u64 },
    Renew { expires: Option<u64> },
}

impl View for Sign {
    type V = SignView;

    open spec fn view(&self) -> SignView {
        match self {
            Sign::Standing { key, duration } => SignView::Standing { key: key@, duration: *duration },
            Sign::Keyed { duration } => SignView::Keyed { duration: *duration },
            Sign::Rekey { duration } => SignView::Rekey { duration: *duration },
            Sign::Renew { expires } => SignView::Renew { expires: *expires },
        }
    }
}

/// What the root's signing came to.
#[derive(Debug, Clone, Copy, PartialEq, Eq, Structural)]
pub enum Signed {
    /// What was asked.
    Done,
    /// A new key, with the old invite good until then.
    Rekeyed { old_invite_until: u64 },
    /// Nothing: the stored standing, which ends then, needs no renewal.
    Unchanged { until: u64 },
    /// There was no device to renew.
    NoDevice,
}

/// One thing to do.
#[derive(Debug)]
pub enum Act {
    ReadContacts,
    ReadStanding,
    /// Ask whether the named device has a standing that a renewal would leave as it is.
    ReadStored,
    /// Make a root on this machine, or finish one whose making stopped.
    MakeRoot,
    /// Open the root, up to its records.
    OpenRoot,
    /// Ask for the passphrase and unlock the root.
    Unlock,
    Sign(Sign),
    /// Renew what is due, and write.
    Commit,
    /// Print the stored standing as an invite.
    PrintStored,
    /// Print the invite that was signed.
    PrintInvite,
    /// Say a line.
    Say(String),
    /// Offer what was cut to the other devices.
    Offer,
}

pub ghost enum ActView {
    ReadContacts,
    ReadStanding,
    ReadStored,
    MakeRoot,
    OpenRoot,
    Unlock,
    Sign(SignView),
    Commit,
    PrintStored,
    PrintInvite,
    Say(Seq<char>),
    Offer,
}

impl View for Act {
    type V = ActView;

    open spec fn view(&self) -> ActView {
        match self {
            Act::ReadContacts => ActView::ReadContacts,
            Act::ReadStanding => ActView::ReadStanding,
            Act::ReadStored => ActView::ReadStored,
            Act::MakeRoot => ActView::MakeRoot,
            Act::OpenRoot => ActView::OpenRoot,
            Act::Unlock => ActView::Unlock,
            Act::Sign(sign) => ActView::Sign(sign@),
            Act::Commit => ActView::Commit,
            Act::PrintStored => ActView::PrintStored,
            Act::PrintInvite => ActView::PrintInvite,
            Act::Say(line) => ActView::Say(line@),
            Act::Offer => ActView::Offer,
        }
    }
}

/// The acts, as values.
pub open spec fn act_views(acts: Seq<Act>) -> Seq<ActView> {
    acts.map_values(|a: Act| a@)
}

/// The stored standing of a named device.
#[derive(Debug)]
pub struct StoredStanding {
    pub key: String,
    pub until: u64,
}

/// What the root's records say of the named device.
#[derive(Debug)]
pub struct Records {
    /// The device of that name, where there is one to renew.
    pub device: Option<Row>,
    /// What they hold against adding the key, or rekeying the device.
    pub refused: Option<String>,
    /// The rows of all the devices.
    pub rows: Vec<Row>,
    /// Now, in Unix seconds.
    pub now: u64,
}

/// An answer of the outside.
#[derive(Debug)]
pub enum Told {
    /// The command line was read; `parsed` is what its second positional reads as among keys, where it has
    /// one.
    Begun { parsed: Result<String, KeyFault> },
    /// The names in the address book.
    Contacts { petnames: Vec<String> },
    /// This machine's standing, its key, and the name it suggests for itself.
    Standing { standing: Standing, own: String, suggested: String },
    /// The stored standing that a renewal would leave as it is, if any, and this machine's key.
    Stored { found: Option<StoredStanding>, own: String },
    /// A root was made, and its records read.
    Made { records: Records },
    /// A root whose making had stopped was finished.
    Finished,
    /// The root's records were read.
    Read { records: Records },
    /// The root is unlocked.
    Unlocked,
    /// What the signing came to, and the rows after it.
    Signed { signed: Signed, rows: Vec<Row> },
    /// It is written. `rows` are the rows that were, `own` is this machine's key.
    Committed { rows: Vec<Row>, own: String },
    /// It was offered; the lines of what the other devices answered.
    Offered { invite_line: Option<String>, renewed_line: Option<String> },
}

/// How far the act has come.
#[derive(Debug)]
pub enum Stage {
    Start,
    AskedContacts { ask: Ask },
    AskedStanding { ask: Ask },
    AskedStored { ask: Ask },
    Making { ask: Ask },
    Opening { ask: Ask },
    /// `own_duration` is the device's own renewal length, in seconds.
    Unlocking { plan: Plan, own_duration: u64 },
    Signing { plan: Plan, own_duration: u64 },
    Committing { plan: Plan, issued: Issued },
    /// `another` is whether the device is another than this machine.
    Offering { plan: Plan, issued: Issued, another: bool },
    Over,
}

pub ghost enum StageView {
    Start,
    AskedContacts { ask: AskView },
    AskedStanding { ask: AskView },
    AskedStored { ask: AskView },
    Making { ask: AskView },
    Opening { ask: AskView },
    Unlocking { plan: PlanView, own_duration: u64 },
    Signing { plan: PlanView, own_duration: u64 },
    Committing { plan: PlanView, issued: Issued },
    Offering { plan: PlanView, issued: Issued, another: bool },
    Over,
}

impl View for Stage {
    type V = StageView;

    open spec fn view(&self) -> StageView {
        match self {
            Stage::Start => StageView::Start,
            Stage::AskedContacts { ask } => StageView::AskedContacts { ask: ask@ },
            Stage::AskedStanding { ask } => StageView::AskedStanding { ask: ask@ },
            Stage::AskedStored { ask } => StageView::AskedStored { ask: ask@ },
            Stage::Making { ask } => StageView::Making { ask: ask@ },
            Stage::Opening { ask } => StageView::Opening { ask: ask@ },
            Stage::Unlocking { plan, own_duration } => StageView::Unlocking {
                plan: plan@,
                own_duration: *own_duration,
            },
            Stage::Signing { plan, own_duration } => StageView::Signing {
                plan: plan@,
                own_duration: *own_duration,
            },
            Stage::Committing { plan, issued } => StageView::Committing {
                plan: plan@,
                issued: *issued,
            },
            Stage::Offering { plan, issued, another } => StageView::Offering {
                plan: plan@,
                issued: *issued,
                another: *another,
            },
            Stage::Over => StageView::Over,
        }
    }
}

impl Stage {
    /// Whether the stage waits for that answer.
    pub open spec fn awaits(self, told: Told) -> bool {
        match told {
            Told::Begun { parsed } => self is Start,
            Told::Contacts { petnames } => self is AskedContacts,
            Told::Standing { standing, own, suggested } => self is AskedStanding,
            Told::Stored { found, own } => self is AskedStored,
            Told::Made { records } => self is Making,
            Told::Finished => self is Making,
            Told::Read { records } => self is Opening,
            Told::Unlocked => self is Unlocking,
            Told::Signed { signed, rows } => self is Signing,
            Told::Committed { rows, own } => self is Committing,
            Told::Offered { invite_line, renewed_line } => self is Offering,
        }
    }
}

/// What comes next: the stage and the things to do, or the refusal.
pub type Next = Result<(StageView, Seq<ActView>), Seq<char>>;

pub open spec fn opt_view(text: Option<String>) -> Option<Seq<char>> {
    match text {
        Some(text) => Some(text@),
        None => None,
    }
}

/// A line to say, where there is one.
pub open spec fn say(line: Option<Seq<char>>) -> Seq<ActView> {
    match line {
        Some(line) => seq![ActView::Say(line)],
        None => seq![],
    }
}

/// The lines to say, in order.
pub open spec fn say_all(lines: Seq<Seq<char>>) -> Seq<ActView> {
    lines.map_values(|line: Seq<char>| ActView::Say(line))
}

/// The command line, as an ask.
pub open spec fn next_begun(cmd: InviteCmd, parsed: Result<String, KeyFault>) -> Next {
    if cmd.name is None {
        Err("name the device: swoosh invite <name> <key>"@)
    } else {
        match cmd.key {
            Some(text) => match parsed {
                Ok(key) => Ok(
                    (
                        StageView::AskedContacts { ask: AskView::Add(key@) },
                        seq![ActView::ReadContacts],
                    ),
                ),
                Err(KeyFault::NotAKey) => Err(invite::not_a_key_words(text@)),
                Err(KeyFault::Unusable(check)) => Err(
                    invite::unusable_key_words(text@, check@),
                ),
            },
            None => Ok(
                (
                    StageView::AskedContacts {
                        ask: if cmd.new_key {
                            AskView::NewKey
                        } else {
                            AskView::Renew
                        },
                    },
                    seq![ActView::ReadContacts],
                ),
            ),
        }
    }
}

/// The address book.
pub open spec fn next_contacts(name: Seq<char>, ask: AskView, petnames: Seq<Seq<char>>) -> Next {
    if invite::is_contact(petnames, name) {
        Err(invite::contact_words(name))
    } else {
        Ok((StageView::AskedStanding { ask }, seq![ActView::ReadStanding]))
    }
}

/// This machine's standing. A root is made only on a machine that trusts none, and only where the root is
/// not said to be elsewhere.
pub open spec fn next_standing(
    cmd: InviteCmd,
    name: Seq<char>,
    ask: AskView,
    standing: Standing,
    own: Seq<char>,
    suggested: Seq<char>,
) -> Next {
    match standing {
        Standing::Damaged { line, trusted } => Err(line@),
        Standing::Unpinned => if cmd.root is Some {
            Ok((StageView::Opening { ask }, seq![ActView::OpenRoot]))
        } else if invite::first_root_refusal(own, suggested, name, ask) is Some {
            Err(invite::first_root_refusal(own, suggested, name, ask)->0)
        } else {
            Ok((StageView::Making { ask }, seq![ActView::MakeRoot]))
        },
        Standing::InterruptedMint { line } => if cmd.root is Some {
            Ok((StageView::Opening { ask }, seq![ActView::OpenRoot]))
        } else {
            Ok((StageView::Making { ask }, seq![ActView::MakeRoot]))
        },
        _ => if ask is NewKey {
            Ok((StageView::Opening { ask }, seq![ActView::OpenRoot]))
        } else {
            Ok((StageView::AskedStored { ask }, seq![ActView::ReadStored]))
        },
    }
}

/// The stored standing: where it is the asked device's and a renewal would leave it as it is, it prints,
/// and nothing is unlocked or signed.
pub open spec fn next_stored(
    name: Seq<char>,
    ask: AskView,
    found: Option<StoredStanding>,
    own: Seq<char>,
) -> Next {
    if found is Some && (match ask {
        AskView::Add(asked) => asked == found->0.key@,
        _ => true,
    }) {
        Ok(
            (
                StageView::Over,
                seq![
                    ActView::PrintStored,
                    ActView::Say(
                        invite::no_renewal_words(
                            name,
                            found->0.until,
                            own == found->0.key@,
                        ),
                    ),
                ],
            ),
        )
    } else {
        Ok((StageView::Opening { ask }, seq![ActView::OpenRoot]))
    }
}

/// What a plan signs, for how long.
pub open spec fn signing(plan: PlanView, expires: Option<u64>, own_duration: u64) -> SignView {
    match plan {
        PlanView::Add(key) => SignView::Standing {
            key,
            duration: if expires is Some {
                expires->0
            } else {
                invite::DEFAULT_DURATION
            },
        },
        PlanView::Keyed => SignView::Keyed {
            duration: if expires is Some {
                expires->0
            } else {
                invite::DEFAULT_DURATION
            },
        },
        PlanView::Rekey => SignView::Rekey {
            duration: if expires is Some {
                expires->0
            } else {
                own_duration
            },
        },
        PlanView::Renew => SignView::Renew { expires },
    }
}

/// The records, planned. A root that was just made is already unlocked.
pub open spec fn next_records(
    cmd: InviteCmd,
    name: Seq<char>,
    ask: AskView,
    records: Records,
    made: bool,
) -> Next {
    match invite::planned(records.device, name, ask, opt_view(records.refused)) {
        Err(line) => Err(line),
        Ok(plan) => {
            let line = say(invite::plan_words(plan, records.device, name, records.now));
            let own_duration = invite::renewal_length(records.rows@, name);
            if made {
                Ok(
                    (
                        StageView::Signing { plan, own_duration },
                        line.push(ActView::Sign(signing(plan, cmd.expires, own_duration))),
                    ),
                )
            } else {
                Ok((StageView::Unlocking { plan, own_duration }, line.push(ActView::Unlock)))
            }
        },
    }
}

/// What was issued, by what the signing came to; nothing where there was no device to renew. `before` and
/// `after` are the device's own renewal length before and after the signing.
pub open spec fn issued_of(
    plan: PlanView,
    expires: Option<u64>,
    signed: Signed,
    before: u64,
    after: u64,
) -> Option<Issued> {
    let default = expires is None;
    match plan {
        PlanView::Add(key) => Some(
            Issued {
                carries_key: false,
                duration: if default {
                    invite::DEFAULT_DURATION
                } else {
                    expires->0
                },
                default,
                old_invite_until: None,
                unchanged: None,
            },
        ),
        PlanView::Keyed => Some(
            Issued {
                carries_key: true,
                duration: if default {
                    invite::DEFAULT_DURATION
                } else {
                    expires->0
                },
                default,
                old_invite_until: None,
                unchanged: None,
            },
        ),
        PlanView::Rekey => Some(
            Issued {
                carries_key: true,
                duration: if default {
                    before
                } else {
                    expires->0
                },
                default,
                old_invite_until: match signed {
                    Signed::Rekeyed { old_invite_until } => Some(old_invite_until),
                    _ => None,
                },
                unchanged: None,
            },
        ),
        PlanView::Renew => match signed {
            Signed::Unchanged { until } => Some(
                Issued {
                    carries_key: false,
                    duration: 0,
                    default,
                    old_invite_until: None,
                    unchanged: Some(until),
                },
            ),
            Signed::NoDevice => None,
            _ => Some(
                Issued {
                    carries_key: false,
                    duration: if default {
                        after
                    } else {
                        expires->0
                    },
                    default,
                    old_invite_until: None,
                    unchanged: None,
                },
            ),
        },
    }
}

/// What the signing came to.
pub open spec fn next_signed(
    cmd: InviteCmd,
    name: Seq<char>,
    plan: PlanView,
    own_duration: u64,
    signed: Signed,
    rows: Seq<Row>,
) -> Next {
    match issued_of(
        plan,
        cmd.expires,
        signed,
        own_duration,
        invite::renewal_length(rows, name),
    ) {
        Some(issued) => Ok((StageView::Committing { plan, issued }, seq![ActView::Commit])),
        None => Err(invite::no_device_words(name)),
    }
}

/// The lines after the invite.
pub open spec fn printed_words(
    name: Seq<char>,
    issued: Issued,
    row: Option<Row>,
    own: Seq<char>,
) -> Seq<Seq<char>> {
    match issued.unchanged {
        Some(until) => seq![
            invite::no_renewal_words(name, until, row is Some && row->0.key@ == own),
        ],
        None => invite::issued_words(
            issued,
            "me/"@ + name,
            if row is Some {
                row->0.until
            } else {
                0
            },
        ),
    }
}

/// It is written: the invite prints, then what it means, and then it is offered.
pub open spec fn next_committed(
    name: Seq<char>,
    plan: PlanView,
    issued: Issued,
    rows: Seq<Row>,
    own: Seq<char>,
) -> Next {
    let row = invite::live_row(rows, name);
    Ok(
        (
            StageView::Offering { plan, issued, another: row is Some && row->0.key@ != own },
            seq![ActView::PrintInvite] + say_all(printed_words(name, issued, row, own)) + seq![
                ActView::Offer,
            ],
        ),
    )
}

/// What the other devices answered; how a renewed device takes its renewal is said only where it was
/// renewed and is another than this machine.
pub open spec fn next_offered(
    plan: PlanView,
    issued: Issued,
    another: bool,
    invite_line: Option<Seq<char>>,
    renewed_line: Option<Seq<char>>,
) -> Next {
    Ok(
        (
            StageView::Over,
            say(invite_line) + say(
                if plan is Renew && issued.unchanged is None && another {
                    renewed_line
                } else {
                    None
                },
            ),
        ),
    )
}

/// What comes next, for each stage and each answer it waits for.
pub open spec fn next(cmd: InviteCmd, stage: StageView, told: Told) -> Next {
    let name = cmd.name->0@;
    match (stage, told) {
        (StageView::Start, Told::Begun { parsed }) => next_begun(cmd, parsed),
        (StageView::AskedContacts { ask }, Told::Contacts { petnames }) => next_contacts(
            name,
            ask,
            text::texts(petnames@),
        ),
        (
            StageView::AskedStanding { ask },
            Told::Standing { standing, own, suggested },
        ) => next_standing(cmd, name, ask, standing, own@, suggested@),
        (StageView::AskedStored { ask }, Told::Stored { found, own }) => next_stored(
            name,
            ask,
            found,
            own@,
        ),
        (StageView::Making { ask }, Told::Made { records }) => next_records(
            cmd,
            name,
            ask,
            records,
            true,
        ),
        (StageView::Making { ask }, Told::Finished) => Ok(
            (StageView::Opening { ask }, seq![ActView::OpenRoot]),
        ),
        (StageView::Opening { ask }, Told::Read { records }) => next_records(
            cmd,
            name,
            ask,
            records,
            false,
        ),
        (StageView::Unlocking { plan, own_duration }, Told::Unlocked) => Ok(
            (
                StageView::Signing { plan, own_duration },
                seq![ActView::Sign(signing(plan, cmd.expires, own_duration))],
            ),
        ),
        (StageView::Signing { plan, own_duration }, Told::Signed { signed, rows }) => next_signed(
            cmd,
            name,
            plan,
            own_duration,
            signed,
            rows@,
        ),
        (StageView::Committing { plan, issued }, Told::Committed { rows, own }) => next_committed(
            name,
            plan,
            issued,
            rows@,
            own@,
        ),
        (
            StageView::Offering { plan, issued, another },
            Told::Offered { invite_line, renewed_line },
        ) => next_offered(plan, issued, another, opt_view(invite_line), opt_view(renewed_line)),
        _ => Ok((StageView::Over, seq![])),
    }
}

/// Whether what was decided is what comes next.
pub open spec fn agrees(out: Result<(Stage, Vec<Act>), String>, next: Next) -> bool {
    match out {
        Ok((stage, acts)) => next == Ok::<(StageView, Seq<ActView>), Seq<char>>(
            (stage@, act_views(acts@)),
        ),
        Err(line) => next == Err::<(StageView, Seq<ActView>), Seq<char>>(line@),
    }
}

fn one(act: Act) -> (acts: Vec<Act>)
    ensures
        act_views(acts@) == seq![act@],
{
    let mut acts: Vec<Act> = Vec::new();
    acts.push(act);
    assert(act_views(acts@) =~= seq![act@]);
    acts
}

fn push_act(acts: &mut Vec<Act>, act: Act)
    ensures
        act_views(final(acts)@) == act_views(old(acts)@).push(act@),
{
    acts.push(act);
    assert(act_views(acts@) =~= act_views(old(acts)@).push(act@));
}

fn push_line(acts: &mut Vec<Act>, line: Option<String>)
    ensures
        act_views(final(acts)@) == act_views(old(acts)@) + say(opt_view(line)),
{
    if let Some(text) = line {
        push_act(acts, Act::Say(text));
    }
    assert(act_views(acts@) =~= act_views(old(acts)@) + say(opt_view(line)));
}

fn push_lines(acts: &mut Vec<Act>, lines: &Vec<String>)
    ensures
        act_views(final(acts)@) == act_views(old(acts)@) + say_all(text::texts(lines@)),
{
    let ghost all = text::texts(lines@);
    let mut i: usize = 0;
    assert(act_views(acts@) =~= act_views(old(acts)@) + say_all(all.take(0)));
    while i < lines.len()
        invariant
            i <= lines.len(),
            all == text::texts(lines@),
            act_views(acts@) == act_views(old(acts)@) + say_all(all.take(i as int)),
        decreases lines.len() - i,
    {
        push_act(acts, Act::Say(lines[i].clone()));
        i = i + 1;
        assert(act_views(acts@) =~= act_views(old(acts)@) + say_all(all.take(i as int)));
    }
    assert(all.take(i as int) =~= all);
}

fn sign_of(plan: &Plan, expires: Option<u64>, own_duration: u64) -> (sign: Sign)
    ensures
        sign@ == signing(plan@, expires, own_duration),
{
    let asked: u64 = match expires {
        Some(secs) => secs,
        None => invite::DEFAULT_DURATION,
    };
    match plan {
        Plan::Add(key) => Sign::Standing { key: key.clone(), duration: asked },
        Plan::Keyed => Sign::Keyed { duration: asked },
        Plan::Rekey => Sign::Rekey {
            duration: match expires {
                Some(secs) => secs,
                None => own_duration,
            },
        },
        Plan::Renew => Sign::Renew { expires },
    }
}

fn issue_of(plan: &Plan, expires: Option<u64>, signed: Signed, before: u64, after: u64) -> (issued:
    Option<Issued>)
    ensures
        issued == issued_of(plan@, expires, signed, before, after),
{
    let default: bool = expires.is_none();
    let asked: u64 = match expires {
        Some(secs) => secs,
        None => invite::DEFAULT_DURATION,
    };
    match plan {
        Plan::Add(_) => Some(Issued::bound(asked, default)),
        Plan::Keyed => Some(
            Issued {
                carries_key: true,
                duration: asked,
                default,
                old_invite_until: None,
                unchanged: None,
            },
        ),
        Plan::Rekey => Some(
            Issued {
                carries_key: true,
                duration: match expires {
                    Some(secs) => secs,
                    None => before,
                },
                default,
                old_invite_until: match signed {
                    Signed::Rekeyed { old_invite_until } => Some(old_invite_until),
                    _ => None,
                },
                unchanged: None,
            },
        ),
        Plan::Renew => match signed {
            Signed::Unchanged { until } => Some(
                Issued {
                    carries_key: false,
                    duration: 0,
                    default,
                    old_invite_until: None,
                    unchanged: Some(until),
                },
            ),
            Signed::NoDevice => None,
            _ => Some(
                Issued::bound(
                    match expires {
                        Some(secs) => secs,
                        None => after,
                    },
                    default,
                ),
            ),
        },
    }
}

impl InviteCmd {
    fn begun(&self, parsed: Result<String, KeyFault>) -> (out: Result<(Stage, Vec<Act>), String>)
        ensures
            agrees(out, next_begun(*self, parsed)),
    {
        if self.name.is_none() {
            return Err("name the device: swoosh invite <name> <key>".to_owned());
        }
        let ask = match &self.key {
            Some(text) => match invite::parse_key(text.as_str(), parsed) {
                Ok(key) => Ask::Add(key),
                Err(line) => {
                    return Err(line);
                },
            },
            None => if self.new_key {
                Ask::NewKey
            } else {
                Ask::Renew
            },
        };
        Ok((Stage::AskedContacts { ask }, one(Act::ReadContacts)))
    }

    fn read_standing(
        &self,
        name: &str,
        ask: Ask,
        standing: &Standing,
        own: &str,
        suggested: &str,
    ) -> (out: Result<(Stage, Vec<Act>), String>)
        ensures
            agrees(out, next_standing(*self, name@, ask@, *standing, own@, suggested@)),
    {
        match standing {
            Standing::Damaged { line, .. } => Err(line.clone()),
            Standing::Unpinned => {
                if self.root.is_some() {
                    return Ok((Stage::Opening { ask }, one(Act::OpenRoot)));
                }
                match invite::refuse_before_the_first_root(own, suggested, name, &ask) {
                    Ok(()) => Ok((Stage::Making { ask }, one(Act::MakeRoot))),
                    Err(line) => Err(line),
                }
            },
            Standing::InterruptedMint { .. } => {
                if self.root.is_some() {
                    Ok((Stage::Opening { ask }, one(Act::OpenRoot)))
                } else {
                    Ok((Stage::Making { ask }, one(Act::MakeRoot)))
                }
            },
            _ => {
                if let Ask::NewKey = ask {
                    return Ok((Stage::Opening { ask }, one(Act::OpenRoot)));
                }
                Ok((Stage::AskedStored { ask }, one(Act::ReadStored)))
            },
        }
    }

    fn read_stored(&self, name: &str, ask: Ask, found: &Option<StoredStanding>, own: &str) -> (out:
        Result<(Stage, Vec<Act>), String>)
        ensures
            agrees(out, next_stored(name@, ask@, *found, own@)),
    {
        if let Some(stored) = found {
            let taken: bool = match &ask {
                Ask::Add(asked) => text::same(asked.as_str(), stored.key.as_str()),
                _ => true,
            };
            if taken {
                let mut acts = one(Act::PrintStored);
                let mine: bool = text::same(own, stored.key.as_str());
                push_act(&mut acts, Act::Say(invite::needs_no_renewal(name, stored.until, mine)));
                assert(act_views(acts@) =~= seq![
                    ActView::PrintStored,
                    ActView::Say(
                        invite::no_renewal_words(name@, found->0.until, own@ == found->0.key@),
                    ),
                ]);
                return Ok((Stage::Over, acts));
            }
        }
        Ok((Stage::Opening { ask }, one(Act::OpenRoot)))
    }

    fn read_records(&self, name: &str, ask: &Ask, records: Records, made: bool) -> (out: Result<
        (Stage, Vec<Act>),
        String,
    >)
        ensures
            agrees(out, next_records(*self, name@, ask@, records, made)),
    {
        let own_duration: u64 = invite::own_duration(&records.rows, name);
        let now: u64 = records.now;
        let planned = match &records.device {
            Some(row) => invite::plan(Some(row), name, ask, records.refused, now),
            None => invite::plan(None, name, ask, records.refused, now),
        };
        match planned {
            Err(line) => Err(line),
            Ok(planned) => {
                let mut acts: Vec<Act> = Vec::new();
                push_line(&mut acts, planned.line);
                assert(act_views(acts@) =~= say(
                    invite::plan_words(planned.plan@, records.device, name@, now),
                ));
                let plan = planned.plan;
                if made {
                    push_act(&mut acts, Act::Sign(sign_of(&plan, self.expires, own_duration)));
                    Ok((Stage::Signing { plan, own_duration }, acts))
                } else {
                    push_act(&mut acts, Act::Unlock);
                    Ok((Stage::Unlocking { plan, own_duration }, acts))
                }
            },
        }
    }

    fn committed(&self, name: &str, plan: Plan, issued: Issued, rows: &Vec<Row>, own: &str) -> (out:
        Result<(Stage, Vec<Act>), String>)
        ensures
            agrees(out, next_committed(name@, plan@, issued, rows@, own@)),
    {
        let row = invite::find_live(rows, name);
        let ghost live = invite::live_row(rows@, name@);
        let mine: bool = match row {
            Some(row) => text::same(row.key.as_str(), own),
            None => false,
        };
        let until: u64 = match row {
            Some(row) => row.until,
            None => 0,
        };
        let lines: Vec<String> = match issued.unchanged {
            Some(until) => {
                let mut lines: Vec<String> = Vec::new();
                lines.push(invite::needs_no_renewal(name, until, mine));
                assert(text::texts(lines@) =~= printed_words(name@, issued, live, own@));
                lines
            },
            None => {
                let mut device = "me/".to_owned();
                device.append(name);
                issued.lines(device.as_str(), until)
            },
        };
        let mut acts = one(Act::PrintInvite);
        push_lines(&mut acts, &lines);
        push_act(&mut acts, Act::Offer);
        let another: bool = row.is_some() && !mine;
        assert(act_views(acts@) =~= seq![ActView::PrintInvite] + say_all(
            printed_words(name@, issued, live, own@),
        ) + seq![ActView::Offer]);
        Ok((Stage::Offering { plan, issued, another }, acts))
    }

    /// Take one answer of the outside: how far the act has come with it, and what to do next; or the
    /// refusal the act ends in.
    pub fn issue(&self, stage: Stage, told: Told) -> (out: Result<(Stage, Vec<Act>), String>)
        requires
            stage.awaits(told),
            stage is Start || self.name is Some,
        ensures
            agrees(out, next(*self, stage@, told)),
    {
        let name: &str = match &self.name {
            Some(name) => name.as_str(),
            None => "",
        };
        match (stage, told) {
            (Stage::Start, Told::Begun { parsed }) => self.begun(parsed),
            (Stage::AskedContacts { ask }, Told::Contacts { petnames }) => {
                match invite::refuse_a_contact(&petnames, name) {
                    Ok(()) => Ok((Stage::AskedStanding { ask }, one(Act::ReadStanding))),
                    Err(line) => Err(line),
                }
            },
            (
                Stage::AskedStanding { ask },
                Told::Standing { standing, own, suggested },
            ) => self.read_standing(name, ask, &standing, own.as_str(), suggested.as_str()),
            (Stage::AskedStored { ask }, Told::Stored { found, own }) => self.read_stored(
                name,
                ask,
                &found,
                own.as_str(),
            ),
            (Stage::Making { ask }, Told::Made { records }) => self.read_records(
                name,
                &ask,
                records,
                true,
            ),
            (Stage::Making { ask }, Told::Finished) => Ok(
                (Stage::Opening { ask }, one(Act::OpenRoot)),
            ),
            (Stage::Opening { ask }, Told::Read { records }) => self.read_records(
                name,
                &ask,
                records,
                false,
            ),
            (Stage::Unlocking { plan, own_duration }, Told::Unlocked) => {
                let sign = sign_of(&plan, self.expires, own_duration);
                Ok((Stage::Signing { plan, own_duration }, one(Act::Sign(sign))))
            },
            (Stage::Signing { plan, own_duration }, Told::Signed { signed, rows }) => {
                let after: u64 = invite::own_duration(&rows, name);
                match issue_of(&plan, self.expires, signed, own_duration, after) {
                    Some(issued) => Ok((Stage::Committing { plan, issued }, one(Act::Commit))),
                    None => Err(invite::no_device_line(name)),
                }
            },
            (Stage::Committing { plan, issued }, Told::Committed { rows, own }) => self.committed(
                name,
                plan,
                issued,
                &rows,
                own.as_str(),
            ),
            (
                Stage::Offering { plan, issued, another },
                Told::Offered { invite_line, renewed_line },
            ) => {
                let mut acts: Vec<Act> = Vec::new();
                push_line(&mut acts, invite_line);
                let renewed: bool = match plan {
                    Plan::Renew => issued.unchanged.is_none() && another,
                    _ => false,
                };
                if renewed {
                    push_line(&mut acts, renewed_line);
                }
                assert(act_views(acts@) =~= say(opt_view(invite_line)) + say(
                    if renewed {
                        opt_view(renewed_line)
                    } else {
                        None
                    },
                ));
                Ok((Stage::Over, acts))
            },
            _ => Ok((Stage::Over, Vec::new())),
        }
    }
}

/// How far along the course a stage is.
pub open spec fn progress(stage: StageView) -> int {
    match stage {
        StageView::Start => 0,
        StageView::AskedContacts { ask } => 1,
        StageView::AskedStanding { ask } => 2,
        StageView::AskedStored { ask } => 3,
        StageView::Making { ask } => 4,
        StageView::Opening { ask } => 5,
        StageView::Unlocking { plan, own_duration } => 6,
        StageView::Signing { plan, own_duration } => 7,
        StageView::Committing { plan, issued } => 8,
        StageView::Offering { plan, issued, another } => 9,
        StageView::Over => 10,
    }
}

/// An act ends: every answer takes it further along, or ends it.
pub proof fn an_act_only_goes_on(cmd: InviteCmd, stage: Stage, told: Told)
    requires
        stage.awaits(told),
    ensures
        next(cmd, stage@, told) matches Ok(step) ==> progress(step.0) > progress(stage@),
{
}

/// The passphrase comes after every refusal of the records: the root is unlocked only on records that
/// took the plan.
pub proof fn the_passphrase_follows_the_records(
    cmd: InviteCmd,
    stage: Stage,
    told: Told,
    step: (StageView, Seq<ActView>),
)
    requires
        stage.awaits(told),
        next(cmd, stage@, told) == Ok::<(StageView, Seq<ActView>), Seq<char>>(step),
        step.1.contains(ActView::Unlock),
    ensures
        told matches Told::Read { records } && stage matches Stage::Opening { ask }
            && invite::planned(records.device, cmd.name->0@, ask@, opt_view(records.refused)) is Ok,
{
    let i = choose|i: int| 0 <= i < step.1.len() && step.1[i] == ActView::Unlock;
    lemma_what_follows_the_write(cmd, stage, told, step);
}

/// What a written invite and an answered offer do: print, say lines, and offer; nothing else.
proof fn lemma_what_follows_the_write(
    cmd: InviteCmd,
    stage: Stage,
    told: Told,
    step: (StageView, Seq<ActView>),
)
    requires
        stage.awaits(told),
        next(cmd, stage@, told) == Ok::<(StageView, Seq<ActView>), Seq<char>>(step),
    ensures
        (told is Committed || told is Offered) ==> forall|i: int|
            0 <= i < step.1.len() ==> #[trigger] step.1[i] is Say || step.1[i] is PrintInvite
                || step.1[i] is Offer,
{
}

/// Nothing is signed under a locked root: a signing follows the unlocking, or the making of the root.
pub proof fn a_signing_follows_the_unlocking(
    cmd: InviteCmd,
    stage: Stage,
    told: Told,
    step: (StageView, Seq<ActView>),
    i: int,
)
    requires
        stage.awaits(told),
        next(cmd, stage@, told) == Ok::<(StageView, Seq<ActView>), Seq<char>>(step),
        0 <= i < step.1.len(),
        step.1[i] is Sign,
    ensures
        told is Unlocked || told is Made,
{
    lemma_what_follows_the_write(cmd, stage, told, step);
}

/// The invite prints only after it is written, and before it is offered to anyone: what was signed prints
/// on the answer that it is written, first of all, and the offer is the last thing done on it.
pub proof fn the_invite_prints_after_the_write_and_before_the_offer(
    cmd: InviteCmd,
    stage: Stage,
    told: Told,
    step: (StageView, Seq<ActView>),
    i: int,
)
    requires
        stage.awaits(told),
        next(cmd, stage@, told) == Ok::<(StageView, Seq<ActView>), Seq<char>>(step),
        0 <= i < step.1.len(),
    ensures
        step.1[i] is PrintInvite ==> told is Committed && i == 0,
        step.1[i] is Offer ==> told is Committed && i == step.1.len() - 1 && step.1[0] is PrintInvite,
{
    lemma_what_follows_the_write(cmd, stage, told, step);
}

/// A stored standing prints without a passphrase: it prints only on the answer that a renewal would leave
/// it as it is, and the act ends there.
pub proof fn a_stored_standing_ends_the_act(
    cmd: InviteCmd,
    stage: Stage,
    told: Told,
    step: (StageView, Seq<ActView>),
    i: int,
)
    requires
        stage.awaits(told),
        next(cmd, stage@, told) == Ok::<(StageView, Seq<ActView>), Seq<char>>(step),
        0 <= i < step.1.len(),
        step.1[i] is PrintStored,
    ensures
        told is Stored,
        step.0 is Over,
{
    lemma_what_follows_the_write(cmd, stage, told, step);
}

/// A name keeps its key: an ask for the key the named device already has is a renewal, and a plan that
/// adds a key adds the asked one.
pub proof fn a_plan_keeps_to_the_asked_key(
    device: Option<Row>,
    name: Seq<char>,
    ask: AskView,
    refused: Option<Seq<char>>,
    plan: PlanView,
)
    requires
        invite::planned(device, name, ask, refused) == Ok::<PlanView, Seq<char>>(plan),
    ensures
        plan matches PlanView::Add(key) ==> ask == AskView::Add(key) && refused is None,
        plan is Renew ==> device is Some,
        plan is Rekey ==> device is Some && refused is None,
        plan is Keyed ==> device is None,
        ask matches AskView::Add(key) && device is Some && device->0.key@ == key ==> plan is Renew,
{
}

/// The act that is the one thing done on an answer.
pub open spec fn only_act(next: Next) -> ActView {
    next->Ok_0.1[0]
}

/// What is signed runs as long as was asked. Where a length was asked for, every plan signs that one; where
/// none was, a new device runs ninety days, a rekeyed one its own length, and a renewal is left to the
/// device's own. A standing is for the asked key, and nothing but one signing is done.
pub proof fn what_is_signed_runs_as_asked(cmd: InviteCmd, plan: PlanView, own_duration: u64)
    ensures
        ({
            let unlocked = next(cmd, StageView::Unlocking { plan, own_duration }, Told::Unlocked);
            &&& unlocked is Ok
            &&& unlocked->Ok_0.0 == StageView::Signing { plan, own_duration }
            &&& unlocked->Ok_0.1.len() == 1
            &&& only_act(unlocked) matches ActView::Sign(sign) && match plan {
                PlanView::Add(key) => sign matches SignView::Standing { key: k, duration } && k == key
                    && (cmd.expires matches Some(secs) ==> duration == secs) && (cmd.expires is None
                    ==> duration == 90 * 24 * 60 * 60),
                PlanView::Keyed => sign matches SignView::Keyed { duration } && (
                cmd.expires matches Some(secs) ==> duration == secs) && (cmd.expires is None
                    ==> duration == 90 * 24 * 60 * 60),
                PlanView::Rekey => sign matches SignView::Rekey { duration } && (
                cmd.expires matches Some(secs) ==> duration == secs) && (cmd.expires is None
                    ==> duration == own_duration),
                PlanView::Renew => sign matches SignView::Renew { expires } && expires == cmd.expires,
            }
        }),
{
}

/// A root that was just made signs what an unlocked one would: after the line that is owed, the same
/// signing, on the same plan.
pub proof fn a_made_root_signs_what_an_unlocked_one_would(cmd: InviteCmd, ask: AskView, records: Records)
    ensures
        ({
            let name = cmd.name->0@;
            let plan = invite::planned(records.device, name, ask, opt_view(records.refused));
            let made = next(cmd, StageView::Making { ask }, Told::Made { records });
            let read = next(cmd, StageView::Opening { ask }, Told::Read { records });
            match plan {
                Err(line) => made == Err::<(StageView, Seq<ActView>), Seq<char>>(line) && read
                    == Err::<(StageView, Seq<ActView>), Seq<char>>(line),
                Ok(plan) => {
                    &&& made matches Ok(m) && read matches Ok(r) && r.0
                        matches StageView::Unlocking { plan: p, own_duration } && p == plan && m.0
                        == StageView::Signing { plan, own_duration } && own_duration
                        == invite::renewal_length(records.rows@, name) && r.1.last()
                        == ActView::Unlock && m.1.drop_last() == r.1.drop_last() && m.1.last()
                        == only_act(
                        next(cmd, StageView::Unlocking { plan, own_duration }, Told::Unlocked),
                    )
                },
            }
        }),
{
    let name = cmd.name->0@;
    if let Ok(plan) = invite::planned(records.device, name, ask, opt_view(records.refused)) {
        let line = say(invite::plan_words(plan, records.device, name, records.now));
        let made = next(cmd, StageView::Making { ask }, Told::Made { records });
        let read = next(cmd, StageView::Opening { ask }, Told::Read { records });
        assert(made->Ok_0.1.drop_last() =~= line);
        assert(read->Ok_0.1.drop_last() =~= line);
    }
}

/// What is printed of an invite is what was signed: its length is the signed one, it carries a key exactly
/// where the root made one, the length is called a default exactly where none was asked for, and it is
/// written before anything prints.
pub proof fn the_printed_length_is_the_signed_one(
    cmd: InviteCmd,
    plan: PlanView,
    own_duration: u64,
    signed: Signed,
    rows: Vec<Row>,
)
    ensures
        ({
            let signing = only_act(
                next(cmd, StageView::Unlocking { plan, own_duration }, Told::Unlocked),
            );
            let after = next(
                cmd,
                StageView::Signing { plan, own_duration },
                Told::Signed { signed, rows },
            );
            let none = plan is Renew && signed is NoDevice;
            &&& after is Err <==> none
            &&& after matches Ok(step) ==> {
                &&& step.1 == seq![ActView::Commit]
                &&& step.0 matches StageView::Committing { plan: p, issued } && p == plan && {
                    &&& issued.carries_key <==> plan is Keyed || plan is Rekey
                    &&& issued.default <==> cmd.expires is None
                    &&& issued.unchanged is Some <==> plan is Renew && signed is Unchanged
                    &&& signed matches Signed::Unchanged { until } ==> plan is Renew
                        ==> issued.unchanged == Some(until)
                    &&& issued.old_invite_until is Some <==> plan is Rekey && signed is Rekeyed
                    &&& signed matches Signed::Rekeyed { old_invite_until } ==> plan is Rekey
                        ==> issued.old_invite_until == Some(old_invite_until)
                    &&& signing matches ActView::Sign(SignView::Standing { key, duration })
                        ==> issued.duration == duration
                    &&& signing matches ActView::Sign(SignView::Keyed { duration })
                        ==> issued.duration == duration
                    &&& signing matches ActView::Sign(SignView::Rekey { duration })
                        ==> issued.duration == duration
                    &&& plan is Renew && issued.unchanged is None ==> issued.duration == (
                    match cmd.expires {
                        Some(secs) => secs,
                        None => invite::renewal_length(rows@, cmd.name->0@),
                    })
                }
            }
        }),
{
}

/// The command line is what is asked: the typed key is added, `--new-key` makes one, and a bare name renews;
/// nothing is asked without a name, or for a text that is no key.
pub proof fn the_command_line_is_what_is_asked(cmd: InviteCmd, parsed: Result<String, KeyFault>)
    ensures
        ({
            let begun = next(cmd, StageView::Start, Told::Begun { parsed });
            &&& begun is Ok <==> cmd.name is Some && (cmd.key is Some ==> parsed is Ok)
            &&& begun matches Ok(step) ==> step.1 == seq![ActView::ReadContacts] && (step.0
                matches StageView::AskedContacts { ask } && {
                &&& cmd.key is Some ==> ask == AskView::Add(parsed->Ok_0@)
                &&& cmd.key is None && cmd.new_key ==> ask == AskView::NewKey
                &&& cmd.key is None && !cmd.new_key ==> ask == AskView::Renew
            })
        }),
{
}

/// An act goes from one question to the next, and the ask goes with it: past the address book unless the
/// name is a contact's; past this machine's standing, to the making of a root only where this machine has
/// none and none is said to be elsewhere, to the stored standing where a root is trusted and no new key is
/// asked for, and otherwise to the root itself.
pub proof fn the_ask_goes_through_every_question(
    cmd: InviteCmd,
    ask: AskView,
    petnames: Vec<String>,
    standing: Standing,
    own: String,
    suggested: String,
)
    requires
        cmd.name is Some,
    ensures
        ({
            let name = cmd.name->0@;
            let book = next(cmd, StageView::AskedContacts { ask }, Told::Contacts { petnames });
            &&& book is Err <==> text::texts(petnames@).contains(name) && name != "me"@
            &&& book matches Ok(step) ==> step.0 == (StageView::AskedStanding { ask }) && step.1
                == seq![ActView::ReadStanding]
        }),
        ({
            let name = cmd.name->0@;
            let stood = next(
                cmd,
                StageView::AskedStanding { ask },
                Told::Standing { standing, own, suggested },
            );
            let rootless = standing is Unpinned || standing is InterruptedMint;
            &&& stood is Err <==> standing is Damaged || (standing is Unpinned && cmd.root is None && (
            ask is Renew || ask == AskView::Add(own@)))
            &&& stood matches Ok(step) ==> {
                &&& rootless && cmd.root is None ==> step.0 == (StageView::Making { ask }) && step.1
                    == seq![ActView::MakeRoot]
                &&& rootless && cmd.root is Some ==> step.0 == (StageView::Opening { ask })
                    && step.1 == seq![ActView::OpenRoot]
                &&& !rootless && ask is NewKey ==> step.0 == (StageView::Opening { ask }) && step.1
                    == seq![ActView::OpenRoot]
                &&& !rootless && !(ask is NewKey) ==> step.0 == (StageView::AskedStored { ask })
                    && step.1 == seq![ActView::ReadStored]
            }
        }),
{
}

/// A stored standing that needs no renewal prints only for the device that was asked for: the named one on a
/// bare name, and on a typed key only where it is that key.
pub proof fn a_stored_standing_prints_for_the_asked_device(
    cmd: InviteCmd,
    ask: AskView,
    found: Option<StoredStanding>,
    own: String,
)
    ensures
        ({
            let next = next(cmd, StageView::AskedStored { ask }, Told::Stored { found, own });
            let prints = found is Some && (ask matches AskView::Add(key) ==> key == found->0.key@);
            &&& next matches Ok(step) && {
                &&& prints ==> step.0 is Over && step.1.len() == 2 && step.1[0]
                    == ActView::PrintStored && step.1[1] is Say
                &&& !prints ==> step.0 == (StageView::Opening { ask }) && step.1 == seq![
                    ActView::OpenRoot,
                ]
            }
        }),
        next(cmd, StageView::Making { ask }, Told::Finished) == Ok::<
            (StageView, Seq<ActView>),
            Seq<char>,
        >((StageView::Opening { ask }, seq![ActView::OpenRoot])),
{
}

/// What is written prints once, is told in the lines that fit it, and is offered; how a renewed device takes
/// its renewal is said only where another device than this one was renewed.
pub proof fn what_is_written_is_printed_and_offered(
    cmd: InviteCmd,
    plan: PlanView,
    issued: Issued,
    rows: Vec<Row>,
    own: String,
    invite_line: Option<String>,
    renewed_line: Option<String>,
    another: bool,
)
    ensures
        ({
            let name = cmd.name->0@;
            let row = invite::live_row(rows@, name);
            let next = next(
                cmd,
                StageView::Committing { plan, issued },
                Told::Committed { rows, own },
            );
            let said = if issued.unchanged is Some {
                1
            } else {
                invite::issued_words(
                    issued,
                    "me/"@ + name,
                    if row is Some {
                        row->0.until
                    } else {
                        0
                    },
                ).len()
            };
            &&& next matches Ok(step) && {
                &&& step.0 == (StageView::Offering {
                    plan,
                    issued,
                    another: row is Some && row->0.key@ != own@,
                })
                &&& step.1.len() == said + 2
                &&& step.1[0] == ActView::PrintInvite
                &&& step.1.last() == ActView::Offer
                &&& issued.unchanged is None ==> forall|k: int|
                    0 <= k < said ==> #[trigger] step.1[k + 1] == ActView::Say(
                        invite::issued_words(
                            issued,
                            "me/"@ + name,
                            if row is Some {
                                row->0.until
                            } else {
                                0
                            },
                        )[k],
                    )
            }
        }),
        ({
            let next = next(
                cmd,
                StageView::Offering { plan, issued, another },
                Told::Offered { invite_line, renewed_line },
            );
            let renewed = plan is Renew && issued.unchanged is None && another;
            &&& next matches Ok(step) && step.0 is Over && step.1.len() == (if invite_line is Some {
                1int
            } else {
                0
            }) + (if renewed && renewed_line is Some {
                1int
            } else {
                0
            }) && (invite_line matches Some(line) ==> step.1[0] == ActView::Say(line@)) && (renewed
                ==> (renewed_line matches Some(line) ==> step.1.last() == ActView::Say(line@)))
        }),
{
}

/// What an issue is decided as is what comes next.
pub proof fn what_is_decided_is_what_comes_next(
    out: Result<(Stage, Vec<Act>), String>,
    owed: Next,
)
    requires
        agrees(out, owed),
    ensures
        out is Ok <==> owed is Ok,
        out matches Err(line) ==> owed->Err_0 == line@,
        out matches Ok(step) ==> owed->Ok_0.0 == step.0@ && owed->Ok_0.1.len() == step.1@.len() && (
        forall|i: int|
            0 <= i < step.1@.len() ==> #[trigger] owed->Ok_0.1[i] == step.1@[i]@),
{
}

} // verus!
