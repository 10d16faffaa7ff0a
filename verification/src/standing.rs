//! What this machine is: no root's device, a device of one, or the machine where a root is kept.

use vstd::prelude::*;

use crate::span::Moment;

verus! {

/// This machine's standing, as its home reads.
#[derive(Debug)]
pub enum Standing {
    /// No root's device.
    Unpinned,
    /// A device of the root `pin`, until `until`.
    Device { pin: String, until: Moment },
    /// The machine where the root is kept.
    HoldsRoot,
    /// A root whose making stopped before its pin; `line` says how to finish it.
    InterruptedMint { line: String },
    /// A home whose records disagree; `line` says how to start over. `trusted` is the root its pin still
    /// names, where that can be read.
    Damaged { line: String, trusted: Option<String> },
}

/// `when` in whole Unix seconds; what falls before the epoch is 0.
pub open spec fn unix_secs(when: int) -> int {
    if when < 0 {
        0
    } else {
        when / 1_000_000_000
    }
}

/// `when` in Unix seconds.
pub fn unix(when: Moment) -> (secs: u64)
    ensures
        secs == unix_secs(when@),
{
    let n: i128 = when.secs as i128 * 1_000_000_000 + when.nanos as i128;
    if n < 0 {
        0
    } else {
        (n / 1_000_000_000) as u64
    }
}

/// An instant is told in the whole seconds that have passed: what is left of a second is dropped, and what
/// falls before the epoch is second zero.
pub proof fn an_instant_is_told_in_whole_seconds(secs: int, nanos: int)
    requires
        0 <= nanos < 1_000_000_000,
    ensures
        secs >= 0 ==> unix_secs(secs * 1_000_000_000 + nanos) == secs,
        secs < 0 ==> unix_secs(secs * 1_000_000_000 + nanos) == 0,
{
}

} // verus!
