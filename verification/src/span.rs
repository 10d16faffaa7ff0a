//! Instants and spans of time, and the two ways a span is read out: by its coarsest unit alone, and by
//! its two coarsest units.

use vstd::prelude::*;
use vstd::string::StringExecFns;

use crate::text;

verus! {

broadcast use {vstd::seq::group_seq_axioms, vstd::string::group_string_axioms};

/// The nanoseconds of a second.
pub const NANOS: u128 = 1_000_000_000;

/// A day, in seconds.
pub const DAY: u64 = 86_400;

/// An hour, in seconds.
pub const HOUR: u64 = 3_600;

/// A minute, in seconds.
pub const MINUTE: u64 = 60;

/// An instant: whole seconds from the Unix epoch, negative before it, and nanoseconds past them.
#[derive(Debug, Clone, Copy, PartialEq, Eq, Structural)]
pub struct Moment {
    pub secs: i64,
    pub nanos: u32,
}

/// A span of time.
#[derive(Debug, Clone, Copy, PartialEq, Eq, Structural)]
pub struct Span {
    pub nanos: u128,
}

impl Moment {
    /// The instant, in nanoseconds from the epoch.
    pub open spec fn view(&self) -> int {
        self.secs * 1_000_000_000 + self.nanos
    }

    /// The instant `secs` seconds from the epoch.
    pub fn from_unix(secs: i64) -> (at: Moment)
        ensures
            at@ == secs * 1_000_000_000,
    {
        Moment { secs, nanos: 0 }
    }

    fn count(&self) -> (n: i128)
        ensures
            n == self@,
    {
        self.secs as i128 * 1_000_000_000 + self.nanos as i128
    }

    /// Whether this instant is later than `other`.
    pub fn is_after(&self, other: &Moment) -> (yes: bool)
        ensures
            yes == (self@ > other@),
    {
        self.count() > other.count()
    }

    /// How long after `earlier` this instant falls: the span between them, or how far it falls before.
    pub fn since(&self, earlier: &Moment) -> (gap: Result<Span, Span>)
        ensures
            match gap {
                Ok(span) => self@ >= earlier@ && span.nanos == self@ - earlier@,
                Err(span) => self@ < earlier@ && span.nanos == earlier@ - self@,
            },
    {
        let a: i128 = self.count();
        let b: i128 = earlier.count();
        if a >= b {
            Ok(Span { nanos: (a - b) as u128 })
        } else {
            Err(Span { nanos: (b - a) as u128 })
        }
    }
}

impl Span {
    /// The span of `secs` seconds.
    pub fn from_secs(secs: u64) -> (span: Span)
        ensures
            span.nanos == secs * 1_000_000_000,
    {
        Span { nanos: secs as u128 * NANOS }
    }
}

/// A count and the unit it counts.
pub open spec fn counted(n: nat, unit: Seq<char>) -> Seq<char> {
    text::decimal(n) + unit
}

/// A span of `secs` seconds by its coarsest unit alone, what is left over dropped.
pub open spec fn coarsest(secs: nat) -> Seq<char> {
    if secs >= DAY {
        counted(secs / DAY as nat, "d"@)
    } else if secs >= HOUR {
        counted(secs / HOUR as nat, "h"@)
    } else if secs >= MINUTE {
        counted(secs / MINUTE as nat, "m"@)
    } else {
        counted(secs, "s"@)
    }
}

fn counted_text(n: u128, unit: &str) -> (out: String)
    ensures
        out@ == counted(n as nat, unit@),
{
    let mut out = text::decimal_text(n);
    out.append(unit);
    out
}

/// The span by its coarsest unit: `34d`, `1h`, `30m`, `45s`.
pub fn humanize(span: Span) -> (out: String)
    ensures
        out@ == coarsest(span.nanos as nat / 1_000_000_000),
{
    let secs: u128 = span.nanos / NANOS;
    if secs >= DAY as u128 {
        counted_text(secs / DAY as u128, "d")
    } else if secs >= HOUR as u128 {
        counted_text(secs / HOUR as u128, "h")
    } else if secs >= MINUTE as u128 {
        counted_text(secs / MINUTE as u128, "m")
    } else {
        counted_text(secs, "s")
    }
}

/// One part of a span: left out where its count is zero.
pub open spec fn part(n: nat, unit: Seq<char>) -> Seq<Seq<char>> {
    if n > 0 {
        seq![counted(n, unit)]
    } else {
        Seq::empty()
    }
}

/// The parts of a span that are not zero, coarsest first.
pub open spec fn parts(secs: nat) -> Seq<Seq<char>> {
    part(secs / 86_400, "d"@) + part(secs % 86_400 / 3_600, "h"@) + part(
        secs % 3_600 / 60,
        "m"@,
    ) + part(secs % 60, "s"@)
}

/// A span by its two coarsest parts; an empty span is `0s`.
pub open spec fn two_coarsest(secs: nat) -> Seq<char> {
    let p = parts(secs);
    if p.len() == 0 {
        "0s"@
    } else if p.len() == 1 {
        p[0]
    } else {
        p[0] + " "@ + p[1]
    }
}

fn push_part(parts: &mut Vec<String>, n: u64, unit: &str)
    ensures
        text::texts(final(parts)@) == text::texts(old(parts)@) + part(n as nat, unit@),
{
    if n > 0 {
        parts.push(counted_text(n as u128, unit));
    }
    assert(text::texts(parts@) =~= text::texts(old(parts)@) + part(n as nat, unit@));
}

/// A count of seconds as a short span: `5400` is `1h 30m`, `3600` is `1h`.
pub fn humanize_secs(secs: u64) -> (out: String)
    ensures
        out@ == two_coarsest(secs as nat),
{
    let mut found: Vec<String> = Vec::new();
    push_part(&mut found, secs / 86_400, "d");
    push_part(&mut found, secs % 86_400 / 3_600, "h");
    push_part(&mut found, secs % 3_600 / 60, "m");
    push_part(&mut found, secs % 60, "s");
    assert(text::texts(found@) =~= parts(secs as nat));
    if found.len() == 0 {
        return "0s".to_owned();
    }
    assert(text::texts(found@)[0] == found@[0]@);
    let mut out = found[0].clone();
    if found.len() > 1 {
        assert(text::texts(found@)[1] == found@[1]@);
        out.append(" ");
        out.append(found[1].as_str());
    }
    out
}

/// The parts of a span add up to it: nothing is counted twice or lost.
pub proof fn the_parts_add_up(secs: nat)
    ensures
        (secs / 86_400) * 86_400 + (secs % 86_400 / 3_600) * 3_600 + (secs % 3_600 / 60) * 60 + secs
            % 60 == secs,
        secs % 86_400 / 3_600 < 24,
        secs % 3_600 / 60 < 60,
        parts(secs).len() == 0 <==> secs == 0,
{
}

/// A span is read out by the coarsest unit that fits into it, and by how many of those do: whole days of
/// twenty-four hours, else whole hours, else whole minutes, else its seconds. What is left over is dropped.
pub proof fn a_span_is_told_in_its_coarsest_unit(n: nat, rest: nat)
    ensures
        n > 0 && rest < 86_400 ==> coarsest(n * 86_400 + rest) == text::decimal(n) + "d"@,
        0 < n < 24 && rest < 3_600 ==> coarsest(n * 3_600 + rest) == text::decimal(n) + "h"@,
        0 < n < 60 && rest < 60 ==> coarsest(n * 60 + rest) == text::decimal(n) + "m"@,
        n < 60 ==> coarsest(n) == text::decimal(n) + "s"@,
{
    if n > 0 && rest < 86_400 {
        assert((n * 86_400 + rest) / 86_400 == n);
    }
    if n < 24 && rest < 3_600 {
        assert((n * 3_600 + rest) / 3_600 == n);
    }
    if n < 60 && rest < 60 {
        assert((n * 60 + rest) / 60 == n);
    }
}

/// A count and its unit, where there is any to count.
spec fn some_of(n: nat, unit: Seq<char>) -> Seq<Seq<char>> {
    if n == 0 {
        seq![]
    } else {
        seq![text::decimal(n) + unit]
    }
}

/// A span in days, hours, minutes and seconds is told in the first two of them that are not zero, and an
/// empty one as no seconds.
pub proof fn a_span_is_told_in_its_two_coarsest_parts(d: nat, h: nat, m: nat, s: nat)
    requires
        h < 24,
        m < 60,
        s < 60,
    ensures
        ({
            let told = two_coarsest(d * 86_400 + h * 3_600 + m * 60 + s);
            let (days, hours) = (text::decimal(d) + "d"@, text::decimal(h) + "h"@);
            let (minutes, seconds) = (text::decimal(m) + "m"@, text::decimal(s) + "s"@);
            &&& d > 0 && h > 0 ==> told == days + " "@ + hours
            &&& d > 0 && h == 0 && m > 0 ==> told == days + " "@ + minutes
            &&& d > 0 && h == 0 && m == 0 && s > 0 ==> told == days + " "@ + seconds
            &&& d > 0 && h == 0 && m == 0 && s == 0 ==> told == days
            &&& d == 0 && h > 0 && m > 0 ==> told == hours + " "@ + minutes
            &&& d == 0 && h > 0 && m == 0 && s > 0 ==> told == hours + " "@ + seconds
            &&& d == 0 && h > 0 && m == 0 && s == 0 ==> told == hours
            &&& d == 0 && h == 0 && m > 0 && s > 0 ==> told == minutes + " "@ + seconds
            &&& d == 0 && h == 0 && m > 0 && s == 0 ==> told == minutes
            &&& d == 0 && h == 0 && m == 0 && s > 0 ==> told == seconds
            &&& d == 0 && h == 0 && m == 0 && s == 0 ==> told == "0s"@
        }),
{
    let secs = d * 86_400 + h * 3_600 + m * 60 + s;
    assert(secs / 86_400 == d);
    assert(secs % 86_400 == h * 3_600 + m * 60 + s);
    assert(secs % 86_400 / 3_600 == h);
    assert(secs % 3_600 == m * 60 + s);
    assert(secs % 3_600 / 60 == m);
    assert(secs % 60 == s);
    assert(parts(secs) =~= some_of(d, "d"@) + some_of(h, "h"@) + some_of(m, "m"@) + some_of(s, "s"@));
}

} // verus!
