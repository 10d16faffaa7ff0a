//! Calendar days: a count of Unix seconds as the day it falls on, in UTC, written `2026-09-25`.

use vstd::prelude::*;
use vstd::string::StringExecFns;

use crate::text;

verus! {

broadcast use {vstd::seq::group_seq_axioms, vstd::string::group_string_axioms};

/// A calendar day.
#[derive(Debug, Clone, Copy, PartialEq, Eq, Structural)]
pub struct Date {
    pub year: u64,
    pub month: u8,
    pub day: u8,
}

/// Whether the year has a 29th of February.
pub open spec fn leap(year: int) -> bool {
    year % 4 == 0 && (year % 100 != 0 || year % 400 == 0)
}

/// The days of a month.
pub open spec fn month_days(year: int, month: int) -> int {
    if month == 2 {
        if leap(year) {
            29
        } else {
            28
        }
    } else if month == 4 || month == 6 || month == 9 || month == 11 {
        30
    } else {
        31
    }
}

/// The days of the years before `year`, from the year 1 on.
pub open spec fn days_before_year(year: int) -> int {
    365 * (year - 1) + (year - 1) / 4 - (year - 1) / 100 + (year - 1) / 400
}

/// The days of the months before `month` in its year.
pub open spec fn days_before_month(year: int, month: int) -> int
    decreases month,
{
    if month <= 1 {
        0
    } else {
        days_before_month(year, month - 1) + month_days(year, month - 1)
    }
}

/// The days from the year 1 to the Unix epoch.
pub const EPOCH: u64 = 719_162;

impl Date {
    /// Whether the calendar has the day.
    pub open spec fn valid(self) -> bool {
        &&& self.year >= 1
        &&& 1 <= self.month <= 12
        &&& 1 <= self.day <= month_days(self.year as int, self.month as int)
    }

    /// The days from the Unix epoch to the day.
    pub open spec fn number(self) -> int {
        days_before_year(self.year as int) + days_before_month(self.year as int, self.month as int)
            + self.day - 1 - EPOCH
    }

    /// Whether `secs` Unix seconds fall on the day.
    pub open spec fn holds(self, secs: u64) -> bool {
        self.valid() && self.number() == secs / 86_400
    }
}

/// The day that `secs` Unix seconds fall on.
pub open spec fn date_of(secs: u64) -> Date {
    choose|date: Date| date.holds(secs)
}

/// `n` in decimal, filled with zeros on the left to `width` digits.
pub open spec fn zero_filled(n: nat, width: nat) -> Seq<char> {
    let digits = text::decimal(n);
    Seq::new(
        if width > digits.len() {
            (width - digits.len()) as nat
        } else {
            0
        },
        |i: int| '0',
    ) + digits
}

/// A day as it is written.
pub open spec fn written(date: Date) -> Seq<char> {
    zero_filled(date.year as nat, 4) + "-"@ + zero_filled(date.month as nat, 2) + "-"@
        + zero_filled(date.day as nat, 2)
}

/// The day of `secs` Unix seconds, as it is written.
pub open spec fn day(secs: u64) -> Seq<char> {
    written(date_of(secs))
}

proof fn lemma_year_length(year: int)
    requires
        year >= 1,
    ensures
        days_before_year(year + 1) - days_before_year(year) == if leap(year) {
            366int
        } else {
            365
        },
{
}

proof fn lemma_years_ordered(a: int, b: int)
    requires
        1 <= a < b,
    ensures
        days_before_year(a + 1) <= days_before_year(b),
    decreases b - a,
{
    if a + 1 < b {
        lemma_years_ordered(a, b - 1);
        lemma_year_length(b - 1);
    }
}

proof fn lemma_months_fill_the_year(year: int)
    ensures
        days_before_month(year, 13) == if leap(year) {
            366int
        } else {
            365
        },
{
    reveal_with_fuel(days_before_month, 13);
}

proof fn lemma_months_ordered(year: int, a: int, b: int)
    requires
        1 <= a < b <= 13,
    ensures
        days_before_month(year, a + 1) <= days_before_month(year, b),
        0 <= days_before_month(year, a),
    decreases b,
{
    if a + 1 < b {
        lemma_months_ordered(year, a, b - 1);
    }
    if a > 1 {
        lemma_months_ordered(year, a - 1, a);
    }
}

/// A count of days falls on one day of the calendar only.
pub proof fn a_day_has_one_date(a: Date, b: Date)
    requires
        a.valid(),
        b.valid(),
        a.number() == b.number(),
    ensures
        a == b,
{
    lemma_within_year(a);
    lemma_within_year(b);
    if a.year < b.year {
        lemma_years_ordered(a.year as int, b.year as int);
    }
    if b.year < a.year {
        lemma_years_ordered(b.year as int, a.year as int);
    }
    let year = a.year as int;
    if a.month < b.month {
        lemma_months_ordered(year, a.month as int, b.month as int);
    }
    if b.month < a.month {
        lemma_months_ordered(year, b.month as int, a.month as int);
    }
}

proof fn lemma_within_year(date: Date)
    requires
        date.valid(),
    ensures
        days_before_year(date.year as int) <= date.number() + EPOCH < days_before_year(
            date.year as int + 1,
        ),
{
    let year = date.year as int;
    let month = date.month as int;
    lemma_year_length(year);
    lemma_months_fill_the_year(year);
    lemma_months_ordered(year, month, 13);
}

fn is_leap(year: u128) -> (yes: bool)
    ensures
        yes == leap(year as int),
{
    year % 4 == 0 && (year % 100 != 0 || year % 400 == 0)
}

fn length_of_month(year: u128, month: u8) -> (days: u128)
    ensures
        days == month_days(year as int, month as int),
{
    if month == 2 {
        if is_leap(year) {
            29
        } else {
            28
        }
    } else if month == 4 || month == 6 || month == 9 || month == 11 {
        30
    } else {
        31
    }
}

fn before_year(year: u128) -> (days: u128)
    requires
        1 <= year <= 0x1_0000_0000_0000_0000,
    ensures
        days == days_before_year(year as int),
{
    let n: u128 = year - 1;
    365 * n + n / 4 - n / 100 + n / 400
}

impl Date {
    /// The day that `secs` Unix seconds fall on.
    pub fn of(secs: u64) -> (date: Date)
        ensures
            date == date_of(secs),
            date.holds(secs),
    {
        let days: u128 = (secs / 86_400) as u128 + EPOCH as u128;
        // Just below the year, by the length of 400 of them, then onto it.
        let mut year: u128 = days * 400 / 146_097;
        while before_year(year + 1) <= days
            invariant
                1 <= year,
                days <= 0x1_0000_0000_0000,
                year <= days + 1,
                days_before_year(year as int) <= days,
            decreases days - days_before_year(year as int),
        {
            proof {
                lemma_year_length(year as int);
            }
            year = year + 1;
        }
        let mut rest: u128 = days - before_year(year);
        let mut month: u8 = 1;
        proof {
            lemma_year_length(year as int);
            lemma_months_fill_the_year(year as int);
        }
        while rest >= length_of_month(year, month)
            invariant
                1 <= month <= 12,
                year >= 1,
                rest + days_before_month(year as int, month as int) == days - days_before_year(
                    year as int,
                ),
                days < days_before_year(year as int + 1),
                days_before_year(year as int + 1) == days_before_year(year as int)
                    + days_before_month(year as int, 13),
            decreases rest,
        {
            rest = rest - length_of_month(year, month);
            proof {
                if month == 12 {
                    assert(days_before_month(year as int, 13) == days_before_month(year as int, 12)
                        + month_days(year as int, 12));
                }
            }
            month = month + 1;
        }
        let date = Date { year: year as u64, month, day: (rest + 1) as u8 };
        proof {
            assert(date.holds(secs));
            a_day_has_one_date(date, date_of(secs));
        }
        date
    }

    /// The day as it is written.
    pub fn text(&self) -> (out: String)
        ensures
            out@ == written(*self),
    {
        let mut out = String::new();
        push_zero_filled(&mut out, self.year as u128, 4);
        out.append("-");
        push_zero_filled(&mut out, self.month as u128, 2);
        out.append("-");
        push_zero_filled(&mut out, self.day as u128, 2);
        assert(out@ =~= written(*self));
        out
    }
}

fn push_zero_filled(out: &mut String, n: u128, width: usize)
    ensures
        final(out)@ == old(out)@ + zero_filled(n as nat, width as nat),
{
    let digits = text::decimal_text(n);
    let len: usize = text::chars_of(digits.as_str()).len();
    let mut i: usize = len;
    while i < width
        invariant
            len <= i,
            len <= width ==> i <= width,
            width <= len ==> i == len,
            out@ == old(out)@ + Seq::new((i - len) as nat, |k: int| '0'),
        decreases width - i,
    {
        out.push('0');
        i = i + 1;
        assert(out@ =~= old(out)@ + Seq::new((i - len) as nat, |k: int| '0'));
    }
    out.append(digits.as_str());
    assert(out@ =~= old(out)@ + zero_filled(n as nat, width as nat));
}

/// The day of `secs` Unix seconds, as it is written.
pub fn day_text(secs: u64) -> (out: String)
    ensures
        out@ == day(secs),
{
    Date::of(secs).text()
}

/// The calendar is the Gregorian one: a year has three hundred and sixty-six days where it is divisible by
/// four, unless by a hundred and not by four hundred; its months have their lengths and fill it; and the
/// count of days begins with the first of January 1970.
pub proof fn the_calendar_is_gregorian(year: int, month: int)
    requires
        year >= 1,
        1 <= month <= 12,
    ensures
        ({
            let long = (year % 4 == 0 && year % 100 != 0) || year % 400 == 0;
            let length = if long {
                366int
            } else {
                365
            };
            &&& days_before_year(year + 1) == days_before_year(year) + length
            &&& days_before_month(year, 13) == length
            &&& days_before_month(year, month + 1) == days_before_month(year, month) + month_days(
                year,
                month,
            )
            &&& month_days(year, month) == if month == 2 {
                if long {
                    29int
                } else {
                    28
                }
            } else if month == 4 || month == 6 || month == 9 || month == 11 {
                30
            } else {
                31
            }
        }),
        (Date { year: 1970, month: 1, day: 1 }).number() == 0,
        days_before_month(year, 1) == 0,
{
    lemma_year_length(year);
    lemma_months_fill_the_year(year);
}

/// The next day is the next day of its month, or the first of the next month, or of the next year.
pub proof fn one_day_follows_another(date: Date)
    requires
        date.valid(),
        date.year < u64::MAX,
    ensures
        ({
            let last = date.day == month_days(date.year as int, date.month as int);
            let after = if !last {
                Date { year: date.year, month: date.month, day: (date.day + 1) as u8 }
            } else if date.month < 12 {
                Date { year: date.year, month: (date.month + 1) as u8, day: 1 }
            } else {
                Date { year: (date.year + 1) as u64, month: 1, day: 1 }
            };
            after.valid() && after.number() == date.number() + 1
        }),
{
    lemma_year_length(date.year as int);
    lemma_months_fill_the_year(date.year as int);
}

/// A number filled with zeros has at least the digits asked for, and reads back as itself.
pub proof fn a_written_number_reads_back(n: nat, width: nat)
    ensures
        text::value(zero_filled(n, width)) == n,
        zero_filled(n, width).len() >= width,
        zero_filled(n, width).len() > width ==> zero_filled(n, width) == text::decimal(n),
{
    let digits = text::decimal(n);
    let zeros = (if width > digits.len() {
        (width - digits.len()) as nat
    } else {
        0
    }) as nat;
    text::a_number_reads_back(n);
    lemma_zeros_count_nothing(zeros, digits);
    if zeros == 0 {
        assert(zero_filled(n, width) =~= digits);
    }
}

proof fn lemma_zeros_count_nothing(zeros: nat, digits: Seq<char>)
    ensures
        text::value(Seq::new(zeros, |i: int| '0') + digits) == text::value(digits),
    decreases zeros + digits.len(),
{
    let front = Seq::new(zeros, |i: int| '0');
    if digits.len() > 0 {
        lemma_zeros_count_nothing(zeros, digits.drop_last());
        assert((front + digits).drop_last() =~= front + digits.drop_last());
    } else if zeros > 0 {
        let fewer = Seq::new((zeros - 1) as nat, |i: int| '0');
        lemma_zeros_count_nothing((zeros - 1) as nat, digits);
        assert((front + digits).drop_last() =~= fewer + digits);
    } else {
        assert(front + digits =~= digits);
    }
}

proof fn lemma_few_digits(n: nat)
    ensures
        n < 100 ==> text::decimal(n).len() <= 2,
        n < 10_000 ==> text::decimal(n).len() <= 4,
{
    reveal_with_fuel(text::decimal, 5);
}

/// A day of a year of four digits is written in ten characters: the year, the month and the day at their
/// places, each to be read back, and a dash between each two.
pub proof fn a_day_is_written_year_month_day(date: Date)
    requires
        date.valid(),
        date.year < 10_000,
    ensures
        ({
            let day = written(date);
            &&& day.len() == 10
            &&& text::value(day.subrange(0, 4)) == date.year
            &&& day[4] == '-'
            &&& text::value(day.subrange(5, 7)) == date.month
            &&& day[7] == '-'
            &&& text::value(day.subrange(8, 10)) == date.day
        }),
{
    reveal_strlit("-");
    let (y, m, d) = (
        zero_filled(date.year as nat, 4),
        zero_filled(date.month as nat, 2),
        zero_filled(date.day as nat, 2),
    );
    lemma_few_digits(date.year as nat);
    lemma_few_digits(date.month as nat);
    lemma_few_digits(date.day as nat);
    a_written_number_reads_back(date.year as nat, 4);
    a_written_number_reads_back(date.month as nat, 2);
    a_written_number_reads_back(date.day as nat, 2);
    let day = written(date);
    assert(day.subrange(0, 4) =~= y);
    assert(day.subrange(5, 7) =~= m);
    assert(day.subrange(8, 10) =~= d);
}

} // verus!
