//! The status of a peer: one line per device, by how far each one got, and whether the whole was healthy.

use vstd::prelude::*;
use vstd::string::StringExecFns;

use crate::dial;
use crate::dial::BindRole;
use crate::dial::Slip;
use crate::text;

verus! {

broadcast use {vstd::seq::group_seq_axioms, vstd::string::group_string_axioms};

/// How far a device got, least first.
#[derive(Debug, Clone, Copy, PartialEq, Eq, Structural)]
pub enum Outcome {
    Unreachable,
    Refused,
    Failed,
    Healthy,
}

impl Outcome {
    pub open spec fn rank(self) -> int {
        match self {
            Outcome::Unreachable => 0,
            Outcome::Refused => 1,
            Outcome::Failed => 2,
            Outcome::Healthy => 3,
        }
    }

    pub open spec fn furthest(self, other: Outcome) -> Outcome {
        if self.rank() >= other.rank() {
            self
        } else {
            other
        }
    }

    fn number(self) -> (n: u8)
        ensures
            n == self.rank(),
    {
        match self {
            Outcome::Unreachable => 0,
            Outcome::Refused => 1,
            Outcome::Failed => 2,
            Outcome::Healthy => 3,
        }
    }

    /// The further of the two.
    pub fn max(self, other: Outcome) -> (outcome: Outcome)
        ensures
            outcome == self.furthest(other),
    {
        if self.number() >= other.number() {
            self
        } else {
            other
        }
    }
}

/// What is known of one device. Every way a probe fails is a state of its own.
#[derive(Debug)]
pub enum State {
    /// It answered the probe: the path, and the round trip where it was timed.
    Reached { path: String, rtt: Option<String> },
    /// It did not answer the dial.
    Unreachable,
    /// It answered and refused the probe, in these words.
    Refused { refusal: String },
    /// It answered the dial and the probe then failed, for these causes.
    Failed { causes: String },
    /// The probe went out, and nothing came back.
    Unanswered { sent: u32 },
}

/// A status line for one device.
#[derive(Debug)]
pub struct Line {
    /// The device as it was named.
    pub label: String,
    pub transport: String,
    pub state: State,
}

/// The texts of a chain of causes, outermost first.
pub open spec fn chain(causes: Seq<Seq<char>>) -> Seq<char> {
    text::joined(causes, ": "@)
}

/// A failure's full cause chain, `outer: inner`.
pub fn causes(chain_texts: &Vec<String>) -> (out: String)
    ensures
        out@ == chain(text::texts(chain_texts@)),
{
    text::join(chain_texts, ": ")
}

/// What a probe came to.
#[derive(Debug)]
pub enum Probed {
    /// It was refused, in these words.
    Refused { refusal: String },
    /// It failed, for these causes, outermost first.
    Failed { causes: Vec<String> },
    /// It ran: how many went out and came back, the path after it, the round trip it measured, and the
    /// transport's own estimate.
    Ran {
        sent: u32,
        received: u32,
        path: String,
        measured: Option<String>,
        estimate: Option<String>,
    },
}

/// The state a probe shows. Without an answer there is no measurement, so the transport's estimate stands
/// in only for an answer that carried no timing.
pub open spec fn shows(state: State, probed: Probed) -> bool {
    match probed {
        Probed::Refused { refusal } => state matches State::Refused { refusal: words } && words@
            == refusal@,
        Probed::Failed { causes } => state matches State::Failed { causes: words } && words@
            == chain(text::texts(causes@)),
        Probed::Ran { sent, received, path, measured, estimate } => if received == 0 {
            state == State::Unanswered { sent }
        } else {
            state matches State::Reached { path: p, rtt } && p@ == path@ && match (
                rtt,
                if measured is Some {
                    measured
                } else {
                    estimate
                },
            ) {
                (Some(a), Some(b)) => a@ == b@,
                (None, None) => true,
                _ => false,
            }
        },
    }
}

/// How far a state got.
pub open spec fn outcome_of(state: State) -> Outcome {
    match state {
        State::Reached { path, rtt } => Outcome::Healthy,
        State::Unreachable => Outcome::Unreachable,
        State::Refused { refusal } => Outcome::Refused,
        State::Failed { causes } => Outcome::Failed,
        State::Unanswered { sent } => Outcome::Failed,
    }
}

/// A state in words.
pub open spec fn state_words(state: State) -> Seq<char> {
    match state {
        State::Unreachable => "unreachable"@,
        State::Refused { refusal } => "reached, but refused ("@ + refusal@ + ")"@,
        State::Failed { causes } => "reached, but the probe failed ("@ + causes@ + ")"@,
        State::Unanswered { sent } => "reached, but the probe went unanswered ("@ + text::decimal(
            sent as nat,
        ) + " sent, 0 back)"@,
        State::Reached { path, rtt } => match rtt {
            Some(rtt) => path@ + ", rtt "@ + rtt@ + " ms"@,
            None => path@,
        },
    }
}

/// Probe one reached device, under the name it was given.
pub fn probe(label: String, transport: String, probed: Probed) -> (line: Line)
    ensures
        line.label@ == label@,
        line.transport@ == transport@,
        shows(line.state, probed),
{
    let state = match probed {
        Probed::Refused { refusal } => State::Refused { refusal },
        Probed::Failed { causes: texts } => State::Failed { causes: causes(&texts) },
        Probed::Ran { sent, received, path, measured, estimate } => {
            if received == 0 {
                State::Unanswered { sent }
            } else {
                let rtt = match measured {
                    Some(rtt) => Some(rtt),
                    None => estimate,
                };
                State::Reached { path, rtt }
            }
        },
    };
    Line { label, transport, state }
}

impl Line {
    /// The line of a device that did not answer the dial.
    pub fn unreachable(label: &str, transport: &str) -> (line: Line)
        ensures
            line.label@ == label@,
            line.transport@ == transport@,
            line.state is Unreachable,
    {
        Line {
            label: label.to_owned(),
            transport: transport.to_owned(),
            state: State::Unreachable,
        }
    }

    /// The line of a device that refused the probe.
    pub fn refused(label: String, transport: &str, refusal: String) -> (line: Line)
        ensures
            line.label@ == label@,
            line.transport@ == transport@,
            line.state matches State::Refused { refusal: words } && words@ == refusal@,
    {
        Line { label, transport: transport.to_owned(), state: State::Refused { refusal } }
    }

    /// How far the device got.
    pub fn outcome(&self) -> (outcome: Outcome)
        ensures
            outcome == outcome_of(self.state),
    {
        match &self.state {
            State::Reached { .. } => Outcome::Healthy,
            State::Unreachable => Outcome::Unreachable,
            State::Refused { .. } => Outcome::Refused,
            State::Failed { .. } => Outcome::Failed,
            State::Unanswered { .. } => Outcome::Failed,
        }
    }

    /// The line as it is printed.
    pub fn text(&self) -> (out: String)
        ensures
            out@ == self.label@ + " via "@ + self.transport@ + ": "@ + state_words(self.state),
    {
        let words = match &self.state {
            State::Unreachable => "unreachable".to_owned(),
            State::Refused { refusal } => {
                let mut words = "reached, but refused (".to_owned();
                words.append(refusal.as_str());
                words.append(")");
                words
            },
            State::Failed { causes } => {
                let mut words = "reached, but the probe failed (".to_owned();
                words.append(causes.as_str());
                words.append(")");
                words
            },
            State::Unanswered { sent } => {
                let mut words = "reached, but the probe went unanswered (".to_owned();
                text::push_decimal(&mut words, *sent as u128);
                words.append(" sent, 0 back)");
                words
            },
            State::Reached { path, rtt } => {
                let mut words = path.clone();
                if let Some(rtt) = rtt {
                    words.append(", rtt ");
                    words.append(rtt.as_str());
                    words.append(" ms");
                }
                words
            },
        };
        let mut out = self.label.clone();
        out.append(" via ");
        out.append(self.transport.as_str());
        out.append(": ");
        out.append(words.as_str());
        out
    }
}

/// The furthest any device got.
pub open spec fn furthest_of(lines: Seq<Line>) -> Outcome
    decreases lines.len(),
{
    if lines.len() == 0 {
        Outcome::Unreachable
    } else {
        furthest_of(lines.drop_last()).furthest(outcome_of(lines.last().state))
    }
}

/// Show this machine, or a peer.
#[derive(Debug)]
pub struct StatusCmd {
    /// The peer to reach.
    pub peer: Option<String>,
    /// Print this machine's key and nothing else.
    pub key: bool,
    /// A link to present in place of the badge.
    pub present: Option<String>,
    /// Whether a transport was chosen.
    pub transport: bool,
    /// Whether the bind is local only.
    pub local: bool,
    /// Whether a peer's address was given.
    pub hints: bool,
}

/// What a bare status prints.
#[derive(Debug, Clone, Copy, PartialEq, Eq, Structural)]
pub enum Print {
    Key,
    Report,
}

/// What a flag that needs a peer is answered.
pub open spec fn needs_a_peer(flag: Seq<char>) -> Seq<char> {
    flag + " only applies when reaching a peer; drop it or name one"@
}

fn needs_a_peer_line(flag: &str) -> (line: String)
    ensures
        line@ == needs_a_peer(flag@),
{
    let mut line = flag.to_owned();
    line.append(" only applies when reaching a peer; drop it or name one");
    line
}

impl StatusCmd {
    /// A status dials by what was typed as the peer.
    pub fn bind_role(&self, own: Option<&Slip>) -> (role: BindRole)
        ensures
            role@ == dial::as_typed(dial::opt_slip(own), dial::opt(self.present)),
    {
        BindRole::typed(own, &self.present)
    }

    /// The first flag that a status without a peer cannot use.
    pub open spec fn stray_flag(self) -> Option<Seq<char>> {
        if self.present is Some {
            Some("--present"@)
        } else if self.transport {
            Some("--transport"@)
        } else if self.local {
            Some("--local"@)
        } else if self.hints {
            Some("--peer"@)
        } else {
            None
        }
    }

    /// What a status without a peer prints. A flag that only serves to reach one is refused by its name,
    /// never dropped.
    pub fn run_local(&self) -> (print: Result<Print, String>)
        ensures
            match print {
                Ok(print) => self.stray_flag() is None && (print == Print::Key <==> self.key),
                Err(line) => self.stray_flag() is Some && line@ == needs_a_peer(
                    self.stray_flag()->0,
                ),
            },
    {
        if self.present.is_some() {
            return Err(needs_a_peer_line("--present"));
        }
        if self.transport {
            return Err(needs_a_peer_line("--transport"));
        }
        if self.local {
            return Err(needs_a_peer_line("--local"));
        }
        if self.hints {
            return Err(needs_a_peer_line("--peer"));
        }
        if self.key {
            Ok(Print::Key)
        } else {
            Ok(Print::Report)
        }
    }

    /// The furthest any of the peer's devices got: the status is healthy only where one answered.
    pub fn run_status(lines: &Vec<Line>) -> (outcome: Outcome)
        ensures
            outcome == furthest_of(lines@),
    {
        let mut outcome = Outcome::Unreachable;
        let mut i: usize = 0;
        while i < lines.len()
            invariant
                i <= lines.len(),
                outcome == furthest_of(lines@.take(i as int)),
            decreases lines.len() - i,
        {
            assert(lines@.take(i + 1).drop_last() =~= lines@.take(i as int));
            outcome = outcome.max(lines[i].outcome());
            i = i + 1;
        }
        assert(lines@.take(i as int) =~= lines@);
        outcome
    }
}

/// A fan-out is healthy exactly where some device answered the probe: no device that failed, refused or was
/// not reached holds it green, and none takes it away from one that answered.
pub proof fn healthy_means_one_answered(lines: Seq<Line>)
    ensures
        furthest_of(lines) == Outcome::Healthy <==> exists|i: int|
            0 <= i < lines.len() && (#[trigger] lines[i]).state is Reached,
    decreases lines.len(),
{
    if lines.len() > 0 {
        let rest = lines.drop_last();
        healthy_means_one_answered(rest);
        if lines.last().state is Reached {
            assert(lines[lines.len() - 1].state is Reached);
        }
        if exists|i: int| 0 <= i < rest.len() && (#[trigger] rest[i]).state is Reached {
            let i = choose|i: int| 0 <= i < rest.len() && (#[trigger] rest[i]).state is Reached;
            assert(lines[i] == rest[i]);
        }
        if exists|i: int| 0 <= i < lines.len() && (#[trigger] lines[i]).state is Reached {
            let i = choose|i: int| 0 <= i < lines.len() && (#[trigger] lines[i]).state is Reached;
            if i < rest.len() {
                assert(rest[i] == lines[i]);
            }
        }
    }
}

/// A probe with nothing back is never a healthy line: whatever the transport estimates, it shows no path
/// and no round trip.
pub proof fn nothing_back_is_never_healthy(state: State, probed: Probed)
    requires
        shows(state, probed),
        probed matches Probed::Ran { sent, received, path, measured, estimate } ==> received == 0,
    ensures
        outcome_of(state) != Outcome::Healthy,
        !(state is Reached),
{
}

/// The furthest any device got is the furthest of them: no device got further, and one got as far; and being
/// refused is further than not being reached, a probe that failed further than that, and an answer furthest.
pub proof fn the_furthest_is_the_furthest_of_all(lines: Seq<Line>)
    ensures
        forall|i: int|
            0 <= i < lines.len() ==> outcome_of((#[trigger] lines[i]).state).rank() <= furthest_of(
                lines,
            ).rank(),
        lines.len() > 0 ==> exists|i: int|
            0 <= i < lines.len() && outcome_of((#[trigger] lines[i]).state) == furthest_of(lines),
        lines.len() == 0 ==> furthest_of(lines) == Outcome::Unreachable,
        Outcome::Unreachable.rank() < Outcome::Refused.rank() < Outcome::Failed.rank()
            < Outcome::Healthy.rank(),
    decreases lines.len(),
{
    if lines.len() > 0 {
        let rest = lines.drop_last();
        let last = lines.len() - 1;
        the_furthest_is_the_furthest_of_all(rest);
        assert(forall|i: int| 0 <= i < rest.len() ==> rest[i] == #[trigger] lines[i]);
        assert(lines[last] == lines.last());
        if rest.len() > 0 {
            let k = choose|i: int|
                0 <= i < rest.len() && outcome_of((#[trigger] rest[i]).state) == furthest_of(rest);
            assert(lines[k] == rest[k]);
        }
    }
}

/// A device is told as far as it got: it is healthy exactly where the probe was answered, refused where it
/// refused it, unreachable where the dial was not answered, and failed where the probe failed or nothing came
/// back.
pub proof fn a_device_is_told_as_far_as_it_got(state: State, probed: Probed)
    ensures
        outcome_of(state) == Outcome::Healthy <==> state is Reached,
        outcome_of(state) == Outcome::Refused <==> state is Refused,
        outcome_of(state) == Outcome::Unreachable <==> state is Unreachable,
        outcome_of(state) == Outcome::Failed <==> state is Failed || state is Unanswered,
        shows(state, probed) ==> {
            &&& state is Reached <==> (probed matches Probed::Ran { sent, received, path, measured, estimate }
                && received > 0)
            &&& state is Unanswered <==> (probed matches Probed::Ran { sent, received, path, measured, estimate }
                && received == 0)
            &&& state is Refused <==> probed is Refused
            &&& state is Failed <==> probed is Failed
            &&& probed matches Probed::Refused { refusal } ==> (state matches State::Refused { refusal: words }
                && words@ == refusal@)
            &&& probed matches Probed::Failed { causes } ==> (state matches State::Failed { causes: words }
                && words@ == text::joined(text::texts(causes@), ": "@))
            &&& probed matches Probed::Ran { sent, received, path, measured, estimate } ==> {
                &&& state matches State::Unanswered { sent: n } ==> n == sent
                &&& state matches State::Reached { path: p, rtt } ==> {
                    &&& p@ == path@
                    &&& measured matches Some(time) ==> rtt is Some && rtt->0@ == time@
                    &&& measured is None ==> (estimate matches Some(time) ==> rtt is Some && rtt->0@
                        == time@)
                    &&& measured is None && estimate is None ==> rtt is None
                }
            }
        },
{
}

/// A line says what is known of the device: the path and the round trip of one that answered, the words of a
/// refusal, the causes of a failure, and how many went out of a probe that nothing came back of.
pub proof fn a_line_says_what_is_known(state: State)
    ensures
        state matches State::Reached { path, rtt } ==> text::begins(state_words(state), path@) && (
        rtt matches Some(time) ==> text::mentions(state_words(state), time@ + " ms"@)) && (rtt is None
            ==> state_words(state) == path@),
        state matches State::Refused { refusal } ==> text::mentions(state_words(state), refusal@),
        state matches State::Failed { causes } ==> text::mentions(state_words(state), causes@),
        state matches State::Unanswered { sent } ==> text::mentions(
            state_words(state),
            text::decimal(sent as nat),
        ),
{
    match state {
        State::Reached { path, rtt } => {
            text::a_prefix_comes_off_as_it_went_on(path@, Seq::empty(), Seq::empty());
            assert(path@ + Seq::<char>::empty() =~= path@);
            if let Some(time) = rtt {
                let rest = ", rtt "@ + time@ + " ms"@;
                assert(state_words(state) =~= path@ + rest);
                text::a_prefix_comes_off_as_it_went_on(path@, rest, Seq::empty());
                assert(state_words(state) =~= (path@ + ", rtt "@) + (time@ + " ms"@));
                text::lemma_mentions(path@ + ", rtt "@, time@ + " ms"@, Seq::empty());
            }
        },
        State::Refused { refusal } => {
            text::lemma_mentions("reached, but refused ("@, refusal@, ")"@);
        },
        State::Failed { causes } => {
            text::lemma_mentions("reached, but the probe failed ("@, causes@, ")"@);
        },
        State::Unanswered { sent } => {
            text::lemma_mentions(
                "reached, but the probe went unanswered ("@,
                text::decimal(sent as nat),
                " sent, 0 back)"@,
            );
        },
        State::Unreachable => {},
    }
}

/// A status without a peer refuses every flag that only serves to reach one, and no other, and names it.
pub proof fn a_stray_flag_is_named(cmd: StatusCmd, flag: Seq<char>)
    ensures
        cmd.stray_flag() is Some <==> cmd.present is Some || cmd.transport || cmd.local || cmd.hints,
        cmd.stray_flag() == Some("--present"@) <== cmd.present is Some,
        cmd.stray_flag() == Some("--transport"@) <== cmd.present is None && cmd.transport,
        cmd.stray_flag() == Some("--local"@) <== cmd.present is None && !cmd.transport && cmd.local,
        cmd.stray_flag() == Some("--peer"@) <== cmd.present is None && !cmd.transport && !cmd.local
            && cmd.hints,
        text::begins(needs_a_peer(flag), flag),
{
    text::a_prefix_comes_off_as_it_went_on(
        flag,
        " only applies when reaching a peer; drop it or name one"@,
        Seq::empty(),
    );
}

} // verus!
