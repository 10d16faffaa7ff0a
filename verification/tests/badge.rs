//! The badge's own reading of its remaining life.

use swoosh::badge::{DEVICE_BADGE_TTL, DEVICE_WARN_WINDOW, Expiry, remedy};
use swoosh::span::{Moment, Span};

const DAY: u64 = 24 * 60 * 60;

/// A fixed instant, `secs` later.
fn now_plus(secs: i64) -> Moment {
    Moment::from_unix(1_788_400_000 + secs)
}

fn now() -> Moment {
    now_plus(0)
}

fn days(n: u64) -> Span {
    Span::from_secs(n * DAY)
}

#[test]
fn the_window_is_fourteen_days_of_a_ninety_day_badge() {
    assert_eq!(DEVICE_WARN_WINDOW, 14 * DAY);
    assert_eq!(DEVICE_BADGE_TTL, 90 * DAY);
    assert!(
        DEVICE_WARN_WINDOW < DEVICE_BADGE_TTL,
        "a window at or past the TTL would warn from the moment the badge is minted, which warns about \
         nothing"
    );
}

#[test]
fn the_window_edge_is_inside_the_warning() {
    let window = DEVICE_WARN_WINDOW as i64;
    assert_eq!(
        Expiry::at(Some(now_plus(window + 1)), now()),
        Expiry::Live {
            left: Span::from_secs(DEVICE_WARN_WINDOW + 1)
        },
        "a badge outside the window says nothing"
    );
    assert_eq!(
        Expiry::at(Some(now_plus(window)), now()),
        Expiry::Expiring {
            left: Span::from_secs(DEVICE_WARN_WINDOW)
        },
        "the boundary day warns: rounding it the other way silently costs the operator a day"
    );
    assert_eq!(
        Expiry::at(Some(now_plus(DAY as i64)), now()),
        Expiry::Expiring { left: days(1) }
    );
}

#[test]
fn an_expired_badge_still_reports_when_it_died() {
    assert_eq!(
        Expiry::at(Some(now_plus(-6 * DAY as i64)), now()),
        Expiry::Expired { ago: days(6) }
    );
    assert_eq!(
        Expiry::at(Some(now()), now()),
        Expiry::Expiring {
            left: Span::from_secs(0)
        }
    );
}

#[test]
fn an_unreadable_expiry_is_its_own_state() {
    assert_eq!(Expiry::at(None, now()), Expiry::Unknown);
}

#[test]
fn an_expiry_renders_as_a_span_in_the_ledger_vocabulary() {
    assert_eq!(Expiry::Live { left: days(34) }.text(), "expires in 34d");
    assert_eq!(Expiry::Expiring { left: days(12) }.text(), "expires in 12d");
    assert_eq!(Expiry::Expired { ago: days(6) }.text(), "expired 6d ago");
    assert!(
        Expiry::Unknown.text().contains("unknown"),
        "the unreadable case must read as unknown, never as a span"
    );
}

/// The window is told to the nanosecond.
#[test]
fn a_nanosecond_past_the_window_is_live() {
    let edge = Moment {
        secs: 1_788_400_000 + DEVICE_WARN_WINDOW as i64,
        nanos: 1,
    };
    assert!(matches!(Expiry::at(Some(edge), now()), Expiry::Live { .. }));
}

/// A badge only ages: live, then expiring, then expired.
#[test]
fn a_badge_ages_through_its_states() {
    let end = Some(now_plus(90 * DAY as i64));
    let reading = |day: i64| Expiry::at(end, now_plus(day * DAY as i64));
    assert!(matches!(reading(0), Expiry::Live { .. }));
    assert!(matches!(reading(75), Expiry::Live { .. }));
    assert!(matches!(reading(76), Expiry::Expiring { .. }));
    assert!(matches!(reading(90), Expiry::Expiring { .. }));
    assert!(matches!(reading(91), Expiry::Expired { .. }));
}

#[test]
fn the_remedy_names_the_key() {
    assert_eq!(
        remedy("bf01k"),
        "ask the signet holder for a fresh invite (`swoosh invite add <label> --for bf01k`) and adopt it \
         here with `swoosh adopt`"
    );
}
