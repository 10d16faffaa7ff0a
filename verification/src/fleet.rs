//! Learning a fleet: pulling the signed list of devices from a coordination node, and saying what the pull
//! taught.
//!
//! The course of a pull is here, from one answer of the outside to the next thing to do. What a node sends
//! is verified before any of it is folded into the contacts, and the contacts are saved only where it was
//! applied.

use vstd::prelude::*;
use vstd::string::StringExecFns;

use crate::dial;
use crate::dial::BindRole;
use crate::dial::Slip;
use crate::text;

verus! {

broadcast use {vstd::seq::group_seq_axioms, vstd::string::group_string_axioms};

/// The largest roster, in bytes.
pub const MAX_ROSTER_BLOB: usize = 1_048_576;

/// Learn your fleet from a coordination node.
#[derive(Debug)]
pub struct FleetCmd {
    /// The coordination node.
    pub pull: String,
    /// A link to present in place of the badge.
    pub present: Option<String>,
}

/// Why a roster did not verify.
#[derive(Debug)]
pub enum RosterError {
    /// The node has cut none.
    Empty,
    /// It is not signed as it should be, for this cause.
    Unsigned(String),
}

/// What folding a verified roster into the contacts came to.
#[derive(Debug)]
pub enum Hydrated {
    /// It carries no version.
    Unversioned,
    /// It is not newer than what is already known.
    NotNewer { floor: u64 },
    /// It was applied: the devices it no longer lists, the names that were kept, and the members bound.
    Applied { removed: Vec<String>, skipped: u64, bound: u64 },
}

/// What a pull does with a verified roster, and says.
#[derive(Debug)]
pub struct Pulled {
    /// Whether the contacts are written.
    pub saves: bool,
    pub lines: Vec<String>,
}

/// Why a pull does not begin, if it does not: without a signet nothing can be verified, and a disabled one
/// signs nothing this node takes.
pub open spec fn signet_refusal(signet: Option<Seq<char>>, disabled: bool) -> Option<Seq<char>> {
    match signet {
        None => Some("this node has no signet; run `swoosh adopt <invite>` first"@),
        Some(signet) => if disabled {
            Some(
                "signet "@ + signet
                    + " is disabled at this node, so it will not pull a roster that key signed"@,
            )
        } else {
            None
        },
    }
}

/// What a node that sends too much is answered.
pub open spec fn overrun_words(peer: Seq<char>) -> Seq<char> {
    peer + " sent more than a roster can be, so it was not read"@
}

/// Why a roster that did not verify is refused.
pub open spec fn unverified_words(peer: Seq<char>, error: RosterError) -> Seq<char> {
    match error {
        RosterError::Empty => peer
            + " has not cut a roster yet. Run `swoosh invite add <label>` on the machine holding your signet; that is what publishes one"@,
        RosterError::Unsigned(cause) => "roster is not signed by your signet ("@ + cause@
            + "); refusing to hydrate"@,
    }
}

/// What an applied roster is reported as: what it removed first, then what was kept, then what it bound.
pub open spec fn applied_words(
    peer: Seq<char>,
    removed: Seq<Seq<char>>,
    skipped: u64,
    bound: u64,
) -> Seq<Seq<char>> {
    (if removed.len() > 0 {
        seq![
            "removed "@ + text::decimal(removed.len()) + " device(s) your fleet no longer lists: "@
                + text::joined(removed, ", "@),
        ]
    } else {
        seq![]
    }) + (if skipped > 0 {
        seq![
            "kept your own binding for "@ + text::decimal(skipped as nat)
                + " member(s) (a name you set wins over the roster)"@,
        ]
    } else {
        seq![]
    }) + seq![
        if bound == 0 {
            "pulled nothing new from "@ + peer
        } else {
            "pulled "@ + text::decimal(bound as nat) + " member(s) into your fleet from "@ + peer
                + "; reach one with `swoosh ssh me/<device>`"@
        },
    ]
}

/// What a folded roster comes to: whether it is saved and what is said, or why it is refused.
pub open spec fn outcome(peer: Seq<char>, epoch: u64, hydrated: Hydrated) -> Result<
    (bool, Seq<Seq<char>>),
    Seq<char>,
> {
    match hydrated {
        Hydrated::Unversioned => Err(
            "the roster "@ + peer
                + " served carries no version, so it predates roster versioning and cannot be applied safely. Upgrade swoosh on the machine holding your signet; its next `invite add` (or `contact rm me/<device>`) publishes a versioned roster"@,
        ),
        Hydrated::NotNewer { floor } => Ok(
            (
                false,
                seq![
                    "nothing to pull: the roster "@ + peer + " served is at epoch "@ + text::decimal(
                        epoch as nat,
                    ) + ", and you already have epoch "@ + text::decimal(floor as nat),
                ],
            ),
        ),
        Hydrated::Applied { removed, skipped, bound } => Ok(
            (true, applied_words(peer, text::texts(removed@), skipped, bound)),
        ),
    }
}

/// One thing a pull does.
#[derive(Debug)]
pub enum PullAct {
    /// Reach the node's roster service and read what it sends, taking no more than `limit` bytes of it.
    Ask { limit: usize },
    /// Verify the roster against the signet.
    Verify { roster: Vec<u8>, signet: String },
    /// Fold the roster into the contacts, without saving them.
    Fold { roster: Vec<u8> },
    /// Save the contacts.
    Save,
    /// Say a line.
    Say(String),
}

pub ghost enum PullActView {
    Ask { limit: usize },
    Verify { roster: Seq<u8>, signet: Seq<char> },
    Fold { roster: Seq<u8> },
    Save,
    Say(Seq<char>),
}

impl View for PullAct {
    type V = PullActView;

    open spec fn view(&self) -> PullActView {
        match self {
            PullAct::Ask { limit } => PullActView::Ask { limit: *limit },
            PullAct::Verify { roster, signet } => PullActView::Verify {
                roster: roster@,
                signet: signet@,
            },
            PullAct::Fold { roster } => PullActView::Fold { roster: roster@ },
            PullAct::Save => PullActView::Save,
            PullAct::Say(line) => PullActView::Say(line@),
        }
    }
}

/// The acts, as values.
pub open spec fn act_views(acts: Seq<PullAct>) -> Seq<PullActView> {
    acts.map_values(|a: PullAct| a@)
}

/// An answer of the outside.
#[derive(Debug)]
pub enum PullTold {
    /// The signet this node trusts, and whether it is disabled here.
    Begun { signet: Option<String>, disabled: bool },
    /// What the node sent.
    Read { bytes: Vec<u8> },
    /// The epoch of the roster, where it verified.
    Verified { verified: Result<u64, RosterError> },
    /// What the fold came to.
    Folded { hydrated: Hydrated },
    /// The contacts are saved.
    Saved,
}

/// How far a pull has come.
#[derive(Debug)]
pub enum PullStage {
    Start,
    /// The node is asked for its roster.
    Asking { signet: String },
    /// The roster is verified.
    Verifying { roster: Vec<u8> },
    /// The verified roster is folded into the contacts.
    Folding { epoch: u64 },
    /// The contacts are saved; what is said then.
    Saving { lines: Vec<String> },
    Over,
}

pub ghost enum PullStageView {
    Start,
    Asking { signet: Seq<char> },
    Verifying { roster: Seq<u8> },
    Folding { epoch: u64 },
    Saving { lines: Seq<Seq<char>> },
    Over,
}

impl View for PullStage {
    type V = PullStageView;

    open spec fn view(&self) -> PullStageView {
        match self {
            PullStage::Start => PullStageView::Start,
            PullStage::Asking { signet } => PullStageView::Asking { signet: signet@ },
            PullStage::Verifying { roster } => PullStageView::Verifying { roster: roster@ },
            PullStage::Folding { epoch } => PullStageView::Folding { epoch: *epoch },
            PullStage::Saving { lines } => PullStageView::Saving { lines: text::texts(lines@) },
            PullStage::Over => PullStageView::Over,
        }
    }
}

impl PullStage {
    /// Whether the stage waits for that answer.
    pub open spec fn awaits(self, told: PullTold) -> bool {
        match told {
            PullTold::Begun { signet, disabled } => self is Start,
            PullTold::Read { bytes } => self is Asking,
            PullTold::Verified { verified } => self is Verifying,
            PullTold::Folded { hydrated } => self is Folding,
            PullTold::Saved => self is Saving,
        }
    }
}

/// What comes next: the stage and the things to do, or the refusal the pull ends in.
pub type PullNext = Result<(PullStageView, Seq<PullActView>), Seq<char>>;

/// The lines to say, in order.
pub open spec fn say_all(lines: Seq<Seq<char>>) -> Seq<PullActView> {
    lines.map_values(|line: Seq<char>| PullActView::Say(line))
}

/// What comes next, for each stage and each answer it waits for.
pub open spec fn next(peer: Seq<char>, stage: PullStageView, told: PullTold) -> PullNext {
    match (stage, told) {
        (PullStageView::Start, PullTold::Begun { signet, disabled }) => {
            match signet_refusal(dial::opt(signet), disabled) {
                Some(line) => Err(line),
                None => Ok(
                    (
                        PullStageView::Asking { signet: signet->0@ },
                        seq![PullActView::Ask { limit: (MAX_ROSTER_BLOB + 1) as usize }],
                    ),
                ),
            }
        },
        (PullStageView::Asking { signet }, PullTold::Read { bytes }) => {
            if bytes@.len() > MAX_ROSTER_BLOB {
                Err(overrun_words(peer))
            } else {
                Ok(
                    (
                        PullStageView::Verifying { roster: bytes@ },
                        seq![PullActView::Verify { roster: bytes@, signet }],
                    ),
                )
            }
        },
        (PullStageView::Verifying { roster }, PullTold::Verified { verified }) => match verified {
            Err(error) => Err(unverified_words(peer, error)),
            Ok(epoch) => Ok(
                (PullStageView::Folding { epoch }, seq![PullActView::Fold { roster }]),
            ),
        },
        (PullStageView::Folding { epoch }, PullTold::Folded { hydrated }) => {
            match outcome(peer, epoch, hydrated) {
                Err(line) => Err(line),
                Ok((saves, lines)) => if saves {
                    Ok((PullStageView::Saving { lines }, seq![PullActView::Save]))
                } else {
                    Ok((PullStageView::Over, say_all(lines)))
                },
            }
        },
        (PullStageView::Saving { lines }, PullTold::Saved) => Ok(
            (PullStageView::Over, say_all(lines)),
        ),
        _ => Ok((PullStageView::Over, seq![])),
    }
}

/// Whether what was decided is what comes next.
pub open spec fn agrees(out: Result<(PullStage, Vec<PullAct>), String>, next: PullNext) -> bool {
    match out {
        Ok((stage, acts)) => next == Ok::<(PullStageView, Seq<PullActView>), Seq<char>>(
            (stage@, act_views(acts@)),
        ),
        Err(line) => next == Err::<(PullStageView, Seq<PullActView>), Seq<char>>(line@),
    }
}

fn one(act: PullAct) -> (acts: Vec<PullAct>)
    ensures
        act_views(acts@) == seq![act@],
{
    let mut acts: Vec<PullAct> = Vec::new();
    acts.push(act);
    assert(act_views(acts@) =~= seq![act@]);
    acts
}

fn all_said(lines: &Vec<String>) -> (acts: Vec<PullAct>)
    ensures
        act_views(acts@) == say_all(text::texts(lines@)),
{
    let mut acts: Vec<PullAct> = Vec::new();
    let mut i: usize = 0;
    while i < lines.len()
        invariant
            i <= lines.len(),
            acts.len() == i,
            forall|k: int|
                0 <= k < i ==> (#[trigger] acts@[k])@ == PullActView::Say(lines@[k]@),
        decreases lines.len() - i,
    {
        acts.push(PullAct::Say(lines[i].clone()));
        i = i + 1;
    }
    assert(act_views(acts@) =~= say_all(text::texts(lines@)));
    acts
}

fn copied(bytes: &Vec<u8>) -> (copy: Vec<u8>)
    ensures
        copy@ == bytes@,
{
    let copy = bytes.clone();
    assert(copy@ =~= bytes@);
    copy
}

impl FleetCmd {
    /// A pull dials as one of the family: a coordination node admits its badge.
    pub fn bind_role(&self, own: Option<&Slip>) -> (role: BindRole)
        ensures
            role@ == dial::as_family(dial::opt_slip(own), dial::opt(self.present)),
    {
        BindRole::family(own, &self.present)
    }

    /// Whether the pull may begin, before anything is dialed.
    pub fn begin(&self, signet: Option<&str>, disabled: bool) -> (begun: Result<(), String>)
        ensures
            ({
                let refusal = signet_refusal(
                    match signet {
                        Some(signet) => Some(signet@),
                        None => None,
                    },
                    disabled,
                );
                match begun {
                    Ok(()) => refusal is None,
                    Err(line) => refusal == Some(line@),
                }
            }),
    {
        match signet {
            None => Err("this node has no signet; run `swoosh adopt <invite>` first".to_owned()),
            Some(signet) => {
                if disabled {
                    let mut line = "signet ".to_owned();
                    line.append(signet);
                    line.append(
                        " is disabled at this node, so it will not pull a roster that key signed",
                    );
                    return Err(line);
                }
                Ok(())
            },
        }
    }

    /// The most bytes that are taken from the node: the largest roster, and the one byte more that tells a
    /// roster of that size from a node that does not stop.
    pub fn read_limit(&self) -> (limit: usize)
        ensures
            limit == MAX_ROSTER_BLOB + 1,
    {
        MAX_ROSTER_BLOB + 1
    }

    /// Take what was read of a roster, up to the read limit: it is whole, or the node overran the read.
    pub fn read_roster(&self, bytes: Vec<u8>) -> (roster: Result<Vec<u8>, String>)
        ensures
            match roster {
                Ok(whole) => whole@ == bytes@ && bytes@.len() <= MAX_ROSTER_BLOB,
                Err(line) => bytes@.len() > MAX_ROSTER_BLOB && line@ == overrun_words(self.pull@),
            },
    {
        if bytes.len() > MAX_ROSTER_BLOB {
            let mut line = self.pull.clone();
            line.append(" sent more than a roster can be, so it was not read");
            return Err(line);
        }
        Ok(bytes)
    }

    /// Why a roster that did not verify is refused.
    pub fn unverified(&self, error: &RosterError) -> (line: String)
        ensures
            line@ == unverified_words(self.pull@, *error),
    {
        match error {
            RosterError::Empty => {
                let mut line = self.pull.clone();
                line.append(
                    " has not cut a roster yet. Run `swoosh invite add <label>` on the machine holding your signet; that is what publishes one",
                );
                line
            },
            RosterError::Unsigned(cause) => {
                let mut line = "roster is not signed by your signet (".to_owned();
                line.append(cause.as_str());
                line.append("); refusing to hydrate");
                line
            },
        }
    }

    fn applied(&self, removed: &Vec<String>, skipped: u64, bound: u64) -> (lines: Vec<String>)
        ensures
            text::texts(lines@) == applied_words(
                self.pull@,
                text::texts(removed@),
                skipped,
                bound,
            ),
    {
        let mut lines: Vec<String> = Vec::new();
        if removed.len() > 0 {
            let mut line = "removed ".to_owned();
            text::push_decimal(&mut line, removed.len() as u128);
            line.append(" device(s) your fleet no longer lists: ");
            line.append(text::join(removed, ", ").as_str());
            lines.push(line);
        }
        if skipped > 0 {
            let mut line = "kept your own binding for ".to_owned();
            text::push_decimal(&mut line, skipped as u128);
            line.append(" member(s) (a name you set wins over the roster)");
            lines.push(line);
        }
        if bound == 0 {
            let mut line = "pulled nothing new from ".to_owned();
            line.append(self.pull.as_str());
            lines.push(line);
        } else {
            let mut line = "pulled ".to_owned();
            text::push_decimal(&mut line, bound as u128);
            line.append(" member(s) into your fleet from ");
            line.append(self.pull.as_str());
            line.append("; reach one with `swoosh ssh me/<device>`");
            lines.push(line);
        }
        assert(text::texts(lines@) =~= applied_words(
            self.pull@,
            text::texts(removed@),
            skipped,
            bound,
        ));
        lines
    }

    /// What the fold of a verified roster at `epoch` came to.
    pub fn report(&self, epoch: u64, hydrated: &Hydrated) -> (pulled: Result<Pulled, String>)
        ensures
            match pulled {
                Ok(pulled) => outcome(self.pull@, epoch, *hydrated) == Ok::<
                    (bool, Seq<Seq<char>>),
                    Seq<char>,
                >((pulled.saves, text::texts(pulled.lines@))),
                Err(line) => outcome(self.pull@, epoch, *hydrated) == Err::<
                    (bool, Seq<Seq<char>>),
                    Seq<char>,
                >(line@),
            },
    {
        match hydrated {
            Hydrated::Unversioned => {
                let mut line = "the roster ".to_owned();
                line.append(self.pull.as_str());
                line.append(
                    " served carries no version, so it predates roster versioning and cannot be applied safely. Upgrade swoosh on the machine holding your signet; its next `invite add` (or `contact rm me/<device>`) publishes a versioned roster",
                );
                Err(line)
            },
            Hydrated::NotNewer { floor } => {
                let mut line = "nothing to pull: the roster ".to_owned();
                line.append(self.pull.as_str());
                line.append(" served is at epoch ");
                text::push_decimal(&mut line, epoch as u128);
                line.append(", and you already have epoch ");
                text::push_decimal(&mut line, *floor as u128);
                let mut lines: Vec<String> = Vec::new();
                lines.push(line);
                assert(text::texts(lines@) =~= outcome(self.pull@, epoch, *hydrated)->Ok_0.1);
                Ok(Pulled { saves: false, lines })
            },
            Hydrated::Applied { removed, skipped, bound } => {
                Ok(Pulled { saves: true, lines: self.applied(removed, *skipped, *bound) })
            },
        }
    }

    /// Take one answer of the outside: how far the pull has come with it, and what to do next; or the
    /// refusal the pull ends in.
    pub fn pull(&self, stage: PullStage, told: PullTold) -> (step: Result<
        (PullStage, Vec<PullAct>),
        String,
    >)
        requires
            stage.awaits(told),
        ensures
            agrees(step, next(self.pull@, stage@, told)),
    {
        match (stage, told) {
            (PullStage::Start, PullTold::Begun { signet, disabled }) => {
                let trusted: Option<&str> = match &signet {
                    Some(signet) => Some(signet.as_str()),
                    None => None,
                };
                match (self.begin(trusted, disabled), signet) {
                    (Ok(()), Some(signet)) => Ok(
                        (PullStage::Asking { signet }, one(PullAct::Ask { limit: self.read_limit() })),
                    ),
                    (Ok(()), None) => Ok((PullStage::Over, Vec::new())),
                    (Err(line), _) => Err(line),
                }
            },
            (PullStage::Asking { signet }, PullTold::Read { bytes }) => match self.read_roster(
                bytes,
            ) {
                Ok(roster) => {
                    let read = copied(&roster);
                    Ok(
                        (
                            PullStage::Verifying { roster },
                            one(PullAct::Verify { roster: read, signet }),
                        ),
                    )
                },
                Err(line) => Err(line),
            },
            (PullStage::Verifying { roster }, PullTold::Verified { verified }) => match verified {
                Ok(epoch) => Ok((PullStage::Folding { epoch }, one(PullAct::Fold { roster }))),
                Err(error) => Err(self.unverified(&error)),
            },
            (PullStage::Folding { epoch }, PullTold::Folded { hydrated }) => match self.report(
                epoch,
                &hydrated,
            ) {
                Ok(pulled) => {
                    if pulled.saves {
                        Ok((PullStage::Saving { lines: pulled.lines }, one(PullAct::Save)))
                    } else {
                        Ok((PullStage::Over, all_said(&pulled.lines)))
                    }
                },
                Err(line) => Err(line),
            },
            (PullStage::Saving { lines }, PullTold::Saved) => Ok(
                (PullStage::Over, all_said(&lines)),
            ),
            _ => {
                let acts: Vec<PullAct> = Vec::new();
                assert(act_views(acts@) =~= seq![]);
                Ok((PullStage::Over, acts))
            },
        }
    }
}

/// How far along its course a stage is.
pub open spec fn progress(stage: PullStageView) -> int {
    match stage {
        PullStageView::Start => 0,
        PullStageView::Asking { signet } => 1,
        PullStageView::Verifying { roster } => 2,
        PullStageView::Folding { epoch } => 3,
        PullStageView::Saving { lines } => 4,
        PullStageView::Over => 5,
    }
}

/// A pull ends: every answer takes it further along, or ends it.
pub proof fn a_pull_only_goes_on(peer: Seq<char>, stage: PullStage, told: PullTold)
    requires
        stage.awaits(told),
    ensures
        next(peer, stage@, told) matches Ok(step) ==> progress(step.0) > progress(stage@),
{
}

/// A fold follows only a verified roster, and a save only an applied fold: the contacts are folded into on
/// the answer that the roster verified, with that very roster, and saved on the answer that it was applied.
pub proof fn a_fold_follows_only_a_verified_roster(
    peer: Seq<char>,
    stage: PullStage,
    told: PullTold,
    step: (PullStageView, Seq<PullActView>),
    i: int,
)
    requires
        stage.awaits(told),
        next(peer, stage@, told) == Ok::<(PullStageView, Seq<PullActView>), Seq<char>>(step),
        0 <= i < step.1.len(),
    ensures
        step.1[i] matches PullActView::Fold { roster } ==> (told matches PullTold::Verified {
            verified: Ok(epoch),
        } && stage@ == PullStageView::Verifying { roster }),
        step.1[i] is Save ==> (told matches PullTold::Folded { hydrated } && hydrated is Applied),
        step.0 is Folding ==> (told matches PullTold::Verified { verified: Ok(epoch) }),
{
}

/// A roster that does not verify ends the pull, with nothing folded or saved, and so does one without a
/// version; one that is not newer ends it with a line alone.
pub proof fn a_roster_that_is_not_taken_changes_nothing(
    peer: Seq<char>,
    stage: PullStage,
    told: PullTold,
)
    requires
        stage.awaits(told),
    ensures
        told matches PullTold::Verified { verified: Err(error) } ==> next(peer, stage@, told)
            == Err::<(PullStageView, Seq<PullActView>), Seq<char>>(unverified_words(peer, error)),
        told matches PullTold::Folded { hydrated } && hydrated is Unversioned ==> next(
            peer,
            stage@,
            told,
        ) is Err,
        told matches PullTold::Folded { hydrated } && hydrated is NotNewer ==> (next(
            peer,
            stage@,
            told,
        ) matches Ok(step) && step.0 is Over && step.1.len() == 1 && step.1[0] is Say),
{
}

/// However much a node streams, at most the largest roster and one byte are taken from it, and that is
/// enough to tell them apart: a roster of the largest size is read whole, and what fills the limit is
/// refused as an overrun, whatever it is signed by.
pub proof fn a_flood_is_cut_at_a_byte_past_the_ceiling(
    peer: Seq<char>,
    stage: PullStage,
    told: PullTold,
)
    requires
        stage.awaits(told),
    ensures
        next(peer, stage@, told) matches Ok(step) ==> forall|i: int|
            0 <= i < step.1.len() ==> (#[trigger] step.1[i] matches PullActView::Ask { limit }
                ==> limit == MAX_ROSTER_BLOB + 1 && told is Begun),
        told matches PullTold::Read { bytes } && bytes@.len() <= MAX_ROSTER_BLOB ==> next(
            peer,
            stage@,
            told,
        ) is Ok,
        told matches PullTold::Read { bytes } && bytes@.len() >= MAX_ROSTER_BLOB + 1 ==> next(
            peer,
            stage@,
            told,
        ) == Err::<(PullStageView, Seq<PullActView>), Seq<char>>(overrun_words(peer)),
{
}

/// What is verified is what the node sent, against the signet the pull began with: a roster is verified on
/// the answer that read it, whole.
pub proof fn what_was_read_is_what_is_verified(
    peer: Seq<char>,
    stage: PullStage,
    told: PullTold,
    step: (PullStageView, Seq<PullActView>),
    i: int,
)
    requires
        stage.awaits(told),
        next(peer, stage@, told) == Ok::<(PullStageView, Seq<PullActView>), Seq<char>>(step),
        0 <= i < step.1.len(),
    ensures
        step.1[i] matches PullActView::Verify { roster, signet } ==> (told matches PullTold::Read {
            bytes,
        } && bytes@ == roster && stage@ == PullStageView::Asking { signet } && step.0
            == PullStageView::Verifying { roster }),
{
}

/// A pull claims only what it did: nothing is written unless a roster was applied, what an applied roster
/// removed is named first, and a pull that bound nothing names no device to reach.
pub proof fn a_pull_claims_only_what_it_did(peer: Seq<char>, epoch: u64, hydrated: Hydrated)
    ensures
        outcome(peer, epoch, hydrated) matches Ok(said) ==> (said.0 <==> hydrated is Applied),
        hydrated matches Hydrated::Applied { removed, skipped, bound } ==> ({
            let lines = outcome(peer, epoch, hydrated)->Ok_0.1;
            &&& removed@.len() > 0 ==> lines[0] == "removed "@ + text::decimal(removed@.len())
                + " device(s) your fleet no longer lists: "@ + text::joined(
                text::texts(removed@),
                ", "@,
            )
            &&& bound == 0 ==> lines.last() == "pulled nothing new from "@ + peer
        }),
{
    if let Hydrated::Applied { removed, skipped, bound } = hydrated {
        assert(text::texts(removed@).len() == removed@.len());
    }
}

/// A pull goes through every step, and each step takes on exactly what the one before it came to: it begins
/// where there is a signet that is not disabled; takes what was read where it is a mebibyte at most; verifies
/// those bytes against that signet; folds them where they verified; saves where they were applied, and then
/// says every line of it.
pub proof fn a_pull_goes_through_every_step(peer: Seq<char>, stage: PullStage, told: PullTold)
    requires
        stage.awaits(told),
    ensures
        told matches PullTold::Begun { signet, disabled } ==> {
            &&& next(peer, stage@, told) is Ok <==> signet is Some && !disabled
            &&& next(peer, stage@, told) matches Ok(step) ==> step.0 == (PullStageView::Asking {
                signet: signet->0@,
            }) && step.1 == seq![PullActView::Ask { limit: 1_048_577 }]
        },
        told matches PullTold::Read { bytes } ==> {
            &&& next(peer, stage@, told) is Ok <==> bytes@.len() <= 1_048_576
            &&& next(peer, stage@, told) matches Ok(step) ==> step.0 == (PullStageView::Verifying {
                roster: bytes@,
            }) && step.1 == seq![
                PullActView::Verify { roster: bytes@, signet: stage->signet@ },
            ]
        },
        told matches PullTold::Verified { verified } ==> {
            &&& next(peer, stage@, told) is Ok <==> verified is Ok
            &&& next(peer, stage@, told) matches Ok(step) ==> step.0 == (PullStageView::Folding {
                epoch: verified->Ok_0,
            }) && step.1 == seq![PullActView::Fold { roster: stage->roster@ }]
        },
        told matches PullTold::Folded { hydrated } ==> {
            &&& next(peer, stage@, told) is Ok <==> !(hydrated is Unversioned)
            &&& next(peer, stage@, told) matches Ok(step) ==> if hydrated is Applied {
                step.0 == (PullStageView::Saving {
                    lines: outcome(peer, stage->epoch, hydrated)->Ok_0.1,
                }) && step.1 == seq![PullActView::Save]
            } else {
                step.0 is Over && step.1 == seq![
                    PullActView::Say(outcome(peer, stage->epoch, hydrated)->Ok_0.1[0]),
                ]
            }
        },
        told is Saved ==> (next(peer, stage@, told) matches Ok(step) && step.0 is Over
            && step.1.len() == stage->lines@.len() && (forall|i: int|
            0 <= i < step.1.len() ==> #[trigger] step.1[i] == PullActView::Say(
                stage->lines@[i]@,
            ))),
{
    if let PullTold::Folded { hydrated } = told {
        if let Hydrated::NotNewer { floor } = hydrated {
            let lines = outcome(peer, stage->epoch, hydrated)->Ok_0.1;
            assert(say_all(lines) =~= seq![PullActView::Say(lines[0])]);
        }
    }
}

/// What a pull is decided as is what comes next.
pub proof fn what_is_decided_is_what_comes_next(
    out: Result<(PullStage, Vec<PullAct>), String>,
    owed: PullNext,
)
    requires
        agrees(out, owed),
    ensures
        out is Ok <==> owed is Ok,
        out matches Err(line) ==> owed->Err_0 == line@,
        out matches Ok(step) ==> owed->Ok_0.0 == step.0@ && owed->Ok_0.1.len() == step.1@.len() && (
        forall|i: int|
            0 <= i < step.1@.len() ==> #[trigger] owed->Ok_0.1[i] == step.1@[i]@),
{
}

/// A pull that is refused says why: that there is no signet, or which is disabled; which node sent too much,
/// or has cut no roster, or serves one without a version; or the cause for which one did not verify.
pub proof fn a_refused_pull_says_why(
    peer: Seq<char>,
    signet: Option<Seq<char>>,
    disabled: bool,
    error: RosterError,
    epoch: u64,
)
    ensures
        signet is None ==> signet_refusal(signet, disabled) == Some(
            "this node has no signet; run `swoosh adopt <invite>` first"@,
        ),
        signet matches Some(key) ==> (disabled ==> (signet_refusal(signet, disabled) matches Some(line)
            && text::mentions(line, key + " is disabled at this node"@))) && (!disabled
            ==> signet_refusal(signet, disabled) is None),
        text::begins(overrun_words(peer), peer),
        error is Empty ==> text::begins(unverified_words(peer, error), peer + " has not cut a roster yet"@),
        error matches RosterError::Unsigned(cause) ==> text::begins(
            unverified_words(peer, error),
            "roster is not signed by your signet ("@ + cause@ + ")"@,
        ),
        outcome(peer, epoch, Hydrated::Unversioned) matches Err(line) && text::mentions(
            line,
            peer + " served carries no version"@,
        ),
{
    reveal_strlit(" is disabled at this node");
    reveal_strlit(
        " is disabled at this node, so it will not pull a roster that key signed",
    );
    reveal_strlit(" has not cut a roster yet");
    reveal_strlit(
        " has not cut a roster yet. Run `swoosh invite add <label>` on the machine holding your signet; that is what publishes one",
    );
    reveal_strlit(")");
    reveal_strlit("); refusing to hydrate");
    reveal_strlit(" served carries no version");
    reveal_strlit(
        " served carries no version, so it predates roster versioning and cannot be applied safely. Upgrade swoosh on the machine holding your signet; its next `invite add` (or `contact rm me/<device>`) publishes a versioned roster",
    );
    if let Some(key) = signet {
        let rest = " is disabled at this node, so it will not pull a roster that key signed"@;
        lemma_mentions_run("signet "@, key, rest, " is disabled at this node"@);
    }
    text::a_prefix_comes_off_as_it_went_on(
        peer,
        " sent more than a roster can be, so it was not read"@,
        Seq::empty(),
    );
    match error {
        RosterError::Empty => {
            lemma_begins_run(
                peer,
                " has not cut a roster yet. Run `swoosh invite add <label>` on the machine holding your signet; that is what publishes one"@,
                " has not cut a roster yet"@,
            );
        },
        RosterError::Unsigned(cause) => {
            lemma_begins_run(
                "roster is not signed by your signet ("@ + cause@,
                "); refusing to hydrate"@,
                ")"@,
            );
        },
    }
    lemma_mentions_run(
        "the roster "@,
        peer,
        " served carries no version, so it predates roster versioning and cannot be applied safely. Upgrade swoosh on the machine holding your signet; its next `invite add` (or `contact rm me/<device>`) publishes a versioned roster"@,
        " served carries no version"@,
    );
}

proof fn lemma_begins_run(a: Seq<char>, rest: Seq<char>, run: Seq<char>)
    requires
        run.len() <= rest.len(),
        forall|i: int| 0 <= i < run.len() ==> run[i] == rest[i],
    ensures
        text::begins(a + rest, a + run),
{
    assert(a + rest =~= a + run + rest.skip(run.len() as int));
    text::a_prefix_comes_off_as_it_went_on(a + run, rest.skip(run.len() as int), Seq::empty());
}

proof fn lemma_mentions_run(a: Seq<char>, b: Seq<char>, rest: Seq<char>, run: Seq<char>)
    requires
        run.len() <= rest.len(),
        forall|i: int| 0 <= i < run.len() ==> run[i] == rest[i],
    ensures
        text::mentions(a + b + rest, b + run),
{
    assert(a + b + rest =~= a + (b + run) + rest.skip(run.len() as int));
    text::lemma_mentions(a, b + run, rest.skip(run.len() as int));
}

/// An applied roster is reported with every number it came to: how many devices it dropped and which, how
/// many names were kept where any were, and last how many members it bound, or that there was nothing new;
/// and one that is not newer with both epochs.
pub proof fn a_pull_reports_its_numbers(
    peer: Seq<char>,
    removed: Seq<Seq<char>>,
    skipped: u64,
    bound: u64,
    epoch: u64,
    floor: u64,
)
    ensures
        ({
            let lines = applied_words(peer, removed, skipped, bound);
            let first: int = if removed.len() > 0 {
                1
            } else {
                0
            };
            let second: int = if skipped > 0 {
                1
            } else {
                0
            };
            &&& lines.len() == first + second + 1
            &&& removed.len() > 0 ==> text::begins(lines[0], "removed "@ + text::decimal(removed.len()))
                && text::mentions(lines[0], ": "@ + text::joined(removed, ", "@))
            &&& skipped > 0 ==> text::mentions(lines[first], text::decimal(skipped as nat))
            &&& text::mentions(lines.last(), peer)
            &&& bound == 0 <==> lines.last() == "pulled nothing new from "@ + peer
            &&& bound > 0 ==> text::begins(
                lines.last(),
                "pulled "@ + text::decimal(bound as nat) + " member(s) into your fleet from "@ + peer,
            )
        }),
        outcome(peer, epoch, Hydrated::NotNewer { floor }) matches Ok(said) && !said.0
            && said.1.len() == 1 && text::mentions(
            said.1[0],
            peer + " served is at epoch "@ + text::decimal(epoch as nat)
                + ", and you already have epoch "@ + text::decimal(floor as nat),
        ),
{
    let lines = applied_words(peer, removed, skipped, bound);
    if removed.len() > 0 {
        let head = "removed "@ + text::decimal(removed.len());
        let mid = " device(s) your fleet no longer lists: "@;
        let tail = text::joined(removed, ", "@);
        reveal_strlit(" device(s) your fleet no longer lists: ");
        reveal_strlit(" device(s) your fleet no longer lists");
        reveal_strlit(": ");
        assert(mid =~= " device(s) your fleet no longer lists"@ + ": "@);
        assert(head + mid + tail =~= head + (mid + tail));
        text::a_prefix_comes_off_as_it_went_on(head, mid + tail, Seq::empty());
        let before = head + " device(s) your fleet no longer lists"@;
        assert(head + mid + tail =~= before + (": "@ + tail));
        text::lemma_mentions(before, ": "@ + tail, Seq::empty());
    }
    if skipped > 0 {
        text::lemma_mentions(
            "kept your own binding for "@,
            text::decimal(skipped as nat),
            " member(s) (a name you set wins over the roster)"@,
        );
    }
    text::lemma_mentions("pulled nothing new from "@, peer, Seq::empty());
    if bound > 0 {
        let head = "pulled "@ + text::decimal(bound as nat) + " member(s) into your fleet from "@;
        text::lemma_mentions(head, peer, "; reach one with `swoosh ssh me/<device>`"@);
        text::a_prefix_comes_off_as_it_went_on(
            head + peer,
            "; reach one with `swoosh ssh me/<device>`"@,
            Seq::empty(),
        );
        text::a_number_reads_back(bound as nat);
        reveal_strlit("pulled ");
        reveal_strlit("pulled nothing new from ");
        assert(lines.last()[7] == text::decimal(bound as nat)[0]);
        assert(("pulled nothing new from "@ + peer)[7] == 'n');
    }
    let d = text::decimal(epoch as nat);
    let e = text::decimal(floor as nat);
    let told = peer + " served is at epoch "@ + d + ", and you already have epoch "@ + e;
    lemma_told("nothing to pull: the roster "@, peer, " served is at epoch "@, d, ", and you already have epoch "@, e);
    text::lemma_mentions("nothing to pull: the roster "@, told, Seq::empty());
}

proof fn lemma_told(
    head: Seq<char>,
    a: Seq<char>,
    b: Seq<char>,
    c: Seq<char>,
    d: Seq<char>,
    e: Seq<char>,
)
    ensures
        head + a + b + c + d + e == head + (a + b + c + d + e),
{
    assert(head + a + b =~= head + (a + b));
    assert(head + (a + b) + c =~= head + (a + b + c));
    assert(head + (a + b + c) + d =~= head + (a + b + c + d));
    assert(head + (a + b + c + d) + e =~= head + (a + b + c + d + e));
}

} // verus!
