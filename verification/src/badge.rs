//! What a stored membership badge says about its own remaining life, and the one remedy that renews it.
//!
//! The reading is an upper bound: a badge can be shorter-lived than it says, never longer. So a dial may
//! be refused here on an expired badge, and nothing here admits anything.

use vstd::prelude::*;
use vstd::string::StringExecFns;

use crate::span;
use crate::span::Moment;
use crate::span::Span;
use crate::text;

verus! {

broadcast use {vstd::seq::group_seq_axioms, vstd::string::group_string_axioms};

/// How long a device badge stands, in seconds: 90 days.
pub const DEVICE_BADGE_TTL: u64 = 90 * 24 * 60 * 60;

/// How long before a stored badge dies this device starts saying so, in seconds: 14 days.
pub const DEVICE_WARN_WINDOW: u64 = 14 * 24 * 60 * 60;

/// What a badge's own expiry says about its remaining life at one instant.
///
/// This answers expiry, never validity: a revoked badge reads as live here.
#[derive(Debug, Clone, Copy, PartialEq, Eq, Structural)]
pub enum Expiry {
    /// The badge carries no expiry, so this device cannot say when it dies. Not "it never expires".
    Unknown,
    /// The badge died `ago` ago.
    Expired { ago: Span },
    /// The badge has `left` to run, and that is inside the warning window.
    Expiring { left: Span },
    /// The badge has more than the warning window left to run.
    Live { left: Span },
}

impl Expiry {
    /// What an expiry reads as at `now`. The window's own edge warns, and the instant of expiry itself is
    /// not past.
    pub open spec fn reading(expiry: Option<Moment>, now: Moment) -> Expiry {
        match expiry {
            None => Expiry::Unknown,
            Some(at) => if at@ < now@ {
                Expiry::Expired { ago: Span { nanos: (now@ - at@) as u128 } }
            } else if at@ - now@ <= DEVICE_WARN_WINDOW * 1_000_000_000 {
                Expiry::Expiring { left: Span { nanos: (at@ - now@) as u128 } }
            } else {
                Expiry::Live { left: Span { nanos: (at@ - now@) as u128 } }
            },
        }
    }

    /// Read a badge's remaining life as of `now`, from what its own expiry fact read as. A fact that could
    /// not be read is neither expired nor unexpired, so it stays the error it was.
    pub fn read(expiry: Result<Option<Moment>, String>, now: Moment) -> (state: Result<Self, String>)
        ensures
            match (expiry, state) {
                (Ok(expiry), Ok(state)) => state == Expiry::reading(expiry, now),
                (Err(cause), Err(line)) => line@ == cause@,
                _ => false,
            },
    {
        match expiry {
            Ok(expiry) => Ok(Expiry::at(expiry, now)),
            Err(cause) => Err(cause),
        }
    }

    /// Classify an expiry reading against `now`.
    pub fn at(expiry: Option<Moment>, now: Moment) -> (state: Self)
        ensures
            state == Expiry::reading(expiry, now),
    {
        match expiry {
            None => Expiry::Unknown,
            Some(at) => match at.since(&now) {
                Ok(left) => if left.nanos <= Span::from_secs(DEVICE_WARN_WINDOW).nanos {
                    Expiry::Expiring { left }
                } else {
                    Expiry::Live { left }
                },
                Err(ago) => Expiry::Expired { ago },
            },
        }
    }

    /// What every surface prints about the badge.
    pub open spec fn words(self) -> Seq<char> {
        match self {
            Expiry::Unknown => "expiry unknown (this badge does not carry one)"@,
            Expiry::Expired { ago } => "expired "@ + span::coarsest(
                ago.nanos as nat / 1_000_000_000,
            ) + " ago"@,
            Expiry::Expiring { left } => "expires in "@ + span::coarsest(
                left.nanos as nat / 1_000_000_000,
            ),
            Expiry::Live { left } => "expires in "@ + span::coarsest(
                left.nanos as nat / 1_000_000_000,
            ),
        }
    }

    /// The fragment every expiry surface prints about the badge: `expires in 34d`, `expired 6d ago`, or
    /// that it cannot be read.
    pub fn text(&self) -> (out: String)
        ensures
            out@ == self.words(),
    {
        match self {
            Expiry::Unknown => "expiry unknown (this badge does not carry one)".to_owned(),
            Expiry::Expired { ago } => {
                let mut out = "expired ".to_owned();
                out.append(span::humanize(*ago).as_str());
                out.append(" ago");
                out
            },
            Expiry::Expiring { left } => {
                let mut out = "expires in ".to_owned();
                out.append(span::humanize(*left).as_str());
                out
            },
            Expiry::Live { left } => {
                let mut out = "expires in ".to_owned();
                out.append(span::humanize(*left).as_str());
                out
            },
        }
    }

    /// How far along its life a badge reads: live, in its last window, dead.
    pub open spec fn stage(self) -> int {
        match self {
            Expiry::Unknown => 0,
            Expiry::Live { left } => 0,
            Expiry::Expiring { left } => 1,
            Expiry::Expired { ago } => 2,
        }
    }
}

/// The remedy, for the device whose key is `node`.
pub open spec fn remedy_words(node: Seq<char>) -> Seq<char> {
    "ask the signet holder for a fresh invite (`swoosh invite add <label> --for "@ + node
        + "`) and adopt it here with `swoosh adopt`"@
}

/// The one remedy every badge-expiry surface names: renewal is re-enrolment.
pub fn remedy(node: &str) -> (out: String)
    ensures
        out@ == remedy_words(node@),
{
    let mut out = "ask the signet holder for a fresh invite (`swoosh invite add <label> --for ".to_owned();
    out.append(node);
    out.append("`) and adopt it here with `swoosh adopt`");
    out
}

/// A badge only ages: what it reads as at a later instant is never an earlier stage of its life. So a
/// badge that was warned about is never live again, and a dead one stays dead.
pub proof fn a_badge_only_ages(expiry: Option<Moment>, now: Moment, later: Moment)
    requires
        now@ <= later@,
    ensures
        Expiry::reading(expiry, now).stage() <= Expiry::reading(expiry, later).stage(),
{
}

/// The warning window is a part of the badge's life: a badge that has its whole term to run is live, so
/// the warning is never on from the start.
pub proof fn a_fresh_badge_is_live(minted: Moment, expiry: Moment)
    requires
        expiry@ == minted@ + DEVICE_BADGE_TTL * 1_000_000_000,
    ensures
        Expiry::reading(Some(expiry), minted) is Live,
{
}

/// A badge reads by how far its end is off, to the nanosecond: past it, it is expired by that much; at it and
/// up to fourteen days before it, it warns; further off it is live; and one without an end reads as unknown.
pub proof fn a_badge_reads_by_how_far_its_end_is_off(at: Moment, now: Moment)
    ensures
        Expiry::reading(None, now) == Expiry::Unknown,
        ({
            let day = 24 * 60 * 60 * 1_000_000_000int;
            let read = Expiry::reading(Some(at), now);
            &&& read is Expired <==> at@ < now@
            &&& read is Expiring <==> 0 <= at@ - now@ <= 14 * day
            &&& read is Live <==> at@ - now@ > 14 * day
            &&& read matches Expiry::Expired { ago } ==> ago.nanos == now@ - at@
            &&& read matches Expiry::Expiring { left } ==> left.nanos == at@ - now@
            &&& read matches Expiry::Live { left } ==> left.nanos == at@ - now@
        }),
        DEVICE_BADGE_TTL == 90 * 24 * 60 * 60,
{
}

/// What is said of a badge is its own reading: how long it has left or since when it is over, in the coarsest
/// unit of its whole seconds, and that nothing is known where nothing is.
pub proof fn what_is_said_of_a_badge_is_its_reading(span: Span, node: Seq<char>)
    ensures
        ({
            let length = span::coarsest((span.nanos / 1_000_000_000) as nat);
            &&& (Expiry::Expired { ago: span }).words() == "expired "@ + length + " ago"@
            &&& (Expiry::Expiring { left: span }).words() == "expires in "@ + length
            &&& (Expiry::Live { left: span }).words() == (Expiry::Expiring { left: span }).words()
        }),
        text::mentions(remedy_words(node), "swoosh invite add <label> --for "@ + node),
{
    let front = "ask the signet holder for a fresh invite (`"@;
    let cmd = "swoosh invite add <label> --for "@;
    reveal_strlit("ask the signet holder for a fresh invite (`swoosh invite add <label> --for ");
    reveal_strlit("ask the signet holder for a fresh invite (`");
    reveal_strlit("swoosh invite add <label> --for ");
    assert("ask the signet holder for a fresh invite (`swoosh invite add <label> --for "@ =~= front
        + cmd);
    let rest = "`) and adopt it here with `swoosh adopt`"@;
    assert(remedy_words(node) =~= front + (cmd + node) + rest);
    text::lemma_mentions(front, cmd + node, rest);
}

} // verus!
