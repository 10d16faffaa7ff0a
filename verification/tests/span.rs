//! Spans, dates and texts.

use swoosh::date::{Date, day_text};
use swoosh::span::{Moment, Span, humanize, humanize_secs};
use swoosh::text;

#[test]
fn a_span_reads_by_its_coarsest_unit() {
    let read = |secs: u64| humanize(Span::from_secs(secs));
    assert_eq!(read(0), "0s");
    assert_eq!(read(59), "59s");
    assert_eq!(read(60), "1m");
    assert_eq!(read(3_599), "59m");
    assert_eq!(read(3_600), "1h");
    assert_eq!(read(86_399), "23h");
    assert_eq!(read(34 * 86_400 + 1), "34d");
    assert_eq!(humanize(Span { nanos: 999_999_999 }), "0s");
}

/// At most two units, and none that is zero.
#[test]
fn a_count_of_seconds_reads_by_two_units() {
    assert_eq!(humanize_secs(3_600), "1h");
    assert_eq!(humanize_secs(3_601), "1h 1s");
    assert_eq!(humanize_secs(86_400 + 60 + 1), "1d 1m");
    assert_eq!(humanize_secs(u64::MAX), "213503982334601d 7h");
}

#[test]
fn instants_are_told_apart_to_the_nanosecond() {
    let early = Moment { secs: 1, nanos: 5 };
    let late = Moment { secs: 1, nanos: 6 };
    assert!(late.is_after(&early) && !early.is_after(&early));
    assert_eq!(late.since(&early), Ok(Span { nanos: 1 }));
    assert_eq!(early.since(&late), Err(Span { nanos: 1 }));
}

#[test]
fn seconds_fall_on_their_day() {
    for (secs, day) in [
        (0, "1970-01-01"),
        (86_399, "1970-01-01"),
        (86_400, "1970-01-02"),
        (951_782_400, "2000-02-29"),
        (951_868_800, "2000-03-01"),
        (1_790_294_400, "2026-09-25"),
        (4_107_542_400, "2100-03-01"),
        (4_107_542_399, "2100-02-28"),
        (253_402_300_799, "9999-12-31"),
        (253_402_300_800, "10000-01-01"),
    ] {
        assert_eq!(day_text(secs), day, "{secs}");
    }
    assert_eq!(
        Date::of(1_790_294_400),
        Date {
            year: 2026,
            month: 9,
            day: 25
        }
    );
    assert_eq!(day_text(u64::MAX), "584554051223-11-09");
}

#[test]
fn texts_are_counted_in_characters() {
    let mut out = "|".to_owned();
    text::push_padded(&mut out, "né", 4);
    out.push('|');
    text::push_padded(&mut out, "long", 2);
    assert_eq!(out, "|né  |long");
    assert_eq!(
        text::split_once("a=b=c", '='),
        Some(("a".to_owned(), "b=c".to_owned()))
    );
    assert_eq!(text::split_once("abc", '='), None);
    assert_eq!(text::strip_prefix("unix:/x", "unix:"), Some("/x"));
    assert_eq!(text::strip_prefix("unix", "unix:"), None);
    assert_eq!(text::strip_last("a//", '/'), "a/");
    assert_eq!(
        text::join(&vec!["a".to_owned(), "b".to_owned()], ", "),
        "a, b"
    );
    assert_eq!(text::decimal_text(u128::MAX), u128::MAX.to_string());
}
