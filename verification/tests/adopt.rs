//! Adopting an invite: a downgrade check and not a difference check.

use swoosh::adopt::{AdoptCmd, AdoptWrite, Badge, Offer, renews, superseded};
use swoosh::span::Moment;

const DAY: i64 = 24 * 60 * 60;
const BASE: i64 = 1_788_400_000;

fn base() -> Moment {
    Moment::from_unix(BASE)
}

fn day(n: i64) -> Moment {
    Moment::from_unix(BASE + n * DAY)
}

fn badge_for(signet: &str, expiry: Moment) -> Badge {
    Badge {
        text: format!("badge by {signet} until {}", expiry.secs),
        root: signet.to_owned(),
        expiry: Some(expiry),
    }
}

#[test]
fn a_later_badge_from_the_same_signet_for_the_same_device_renews() {
    let stored = badge_for("signet", day(10));
    let fresh = badge_for("signet", day(100));
    assert!(
        renews(&stored, &fresh, true),
        "a strictly later badge at the same signet for the same device is a renewal"
    );
}

#[test]
fn an_older_badge_replayed_under_the_same_signet_is_not_a_renewal() {
    let stored = badge_for("signet", day(100));
    let replay = badge_for("signet", day(10));
    assert!(
        !renews(&stored, &replay, true),
        "an earlier badge is a downgrade, whoever signed it"
    );
}

#[test]
fn a_badge_from_another_signet_is_not_a_renewal() {
    let stored = badge_for("one", day(10));
    let foreign = badge_for("another", day(100));
    assert!(
        !renews(&stored, &foreign, true),
        "a later badge at a DIFFERENT root re-roots this machine; it does not renew it"
    );
}

#[test]
fn a_badge_bound_to_another_device_is_not_a_renewal() {
    let stored = badge_for("signet", day(10));
    let incoming = badge_for("signet", day(100));
    assert!(
        !renews(&stored, &incoming, false),
        "the stored badge binds a different device, so this replaces an identity rather than renewing \
         a credential"
    );
}

#[test]
fn an_expired_stored_badge_is_still_renewed_without_a_flag() {
    let stored = badge_for("signet", day(-6));
    let fresh = badge_for("signet", day(90));
    assert!(
        renews(&stored, &fresh, true),
        "a lapsed device renews with no flag, or a missed quarter costs the danger flag"
    );
}

#[test]
fn only_a_strictly_later_readable_expiry_supersedes() {
    let early = base();
    let late = day(1);

    assert_eq!(
        superseded(Some(early), Some(late)),
        Some(early),
        "later supersedes, and hands back the instant the stored badge was last alive"
    );
    assert_eq!(
        superseded(Some(late), Some(early)),
        None,
        "earlier does not"
    );
    assert_eq!(
        superseded(Some(early), Some(early)),
        None,
        "equal is not strictly later: a verbatim replay must not pass as an improvement"
    );
    assert_eq!(
        superseded(None, Some(late)),
        None,
        "an unreadable STORED expiry cannot be beaten, so the old guard stands"
    );
    assert_eq!(
        superseded(Some(early), None),
        None,
        "an unreadable INCOMING expiry proves nothing, so it is not accepted"
    );
    assert_eq!(superseded(None, None), None);
}

fn offer() -> Offer {
    Offer {
        derived: None,
        identity: Some("node".to_owned()),
        signet: "signet".to_owned(),
        badge: badge_for("signet", day(90)),
        binds: true,
        trusted: None,
        stored: None,
        stored_binds: true,
        disabled: false,
    }
}

fn refused(offer: &Offer, force: bool) -> String {
    AdoptCmd { force }
        .run(offer)
        .expect_err("the invite is refused")
}

#[test]
fn a_bound_invite_keeps_this_machines_identity() {
    let adopted = AdoptCmd { force: false }.run(&offer()).expect("adopted");
    assert_eq!(adopted.node, "node");
    assert!(!adopted.writes_identity);
    assert_eq!(
        adopted.lines,
        [
            "this machine is already node; trusting signet signet",
            "compare that signet with the owner out of band before serving: the token is not signed by \
             the signet it names, so it alone does not prove who sent it.",
            "stored your membership badge: this device now reaches your gated services.",
        ]
    );
}

#[test]
fn a_derived_invite_becomes_its_identity() {
    let derived = Offer {
        derived: Some("child".to_owned()),
        identity: None,
        ..offer()
    };
    let adopted = AdoptCmd { force: false }.run(&derived).expect("adopted");
    assert_eq!(adopted.node, "child");
    assert!(adopted.writes_identity);
    match adopted.writes().as_slice() {
        [
            AdoptWrite::Identity { node },
            AdoptWrite::Signet { signet },
            AdoptWrite::Badge { badge },
        ] => {
            assert_eq!((node.as_str(), signet.as_str()), ("child", "signet"));
            assert_eq!(badge, &derived.badge.text);
        }
        other => panic!("the identity, the signet, the badge: {other:?}"),
    }
    let bound = AdoptCmd { force: false }.run(&offer()).expect("adopted");
    assert!(
        matches!(
            bound.writes().as_slice(),
            [AdoptWrite::Signet { .. }, AdoptWrite::Badge { .. }]
        ),
        "a machine keeps its own identity"
    );
    assert_eq!(adopted.lines[0], "adopted this machine as child  [mine]");
    assert_eq!(
        adopted.lines[1],
        "trusting signet signet: `swoosh serve` now admits its members and delegates."
    );
    assert_eq!(adopted.lines.len(), 4);
}

#[test]
fn every_refusal_of_an_adoption_has_its_line() {
    assert!(
        refused(
            &Offer {
                identity: None,
                ..offer()
            },
            true
        )
        .starts_with("this invite is bound to a device key")
    );
    assert!(
        refused(
            &Offer {
                binds: false,
                ..offer()
            },
            true
        )
        .starts_with("the invite's badge does not bind this machine (node) at signet signet: ")
    );
    let re_root = || Offer {
        trusted: Some("elsewhere".to_owned()),
        ..offer()
    };
    assert_eq!(
        refused(&re_root(), false),
        "this machine already trusts signet elsewhere; adopting this invite would re-root it at signet. \
         Re-run with --force if that is intended"
    );
    assert!(AdoptCmd { force: true }.run(&re_root()).is_ok());
    let downgrade = || Offer {
        stored: Some(badge_for("signet", day(200))),
        ..offer()
    };
    assert!(
        refused(&downgrade(), false)
            .starts_with("this machine already stores a membership badge that this invite does not outlive")
    );
    assert!(AdoptCmd { force: true }.run(&downgrade()).is_ok());
    assert_eq!(
        refused(
            &Offer {
                disabled: true,
                ..offer()
            },
            true
        ),
        "signet signet is disabled at this node, so it will not adopt an invite that key signed"
    );
}

/// The exact stored badge is a no-op, and a renewal needs no flag.
#[test]
fn a_renewal_and_a_repeat_need_no_force() {
    let same = Offer {
        stored: Some(badge_for("signet", day(90))),
        stored_binds: false,
        ..offer()
    };
    assert!(AdoptCmd { force: false }.run(&same).is_ok());
    let renewal = Offer {
        stored: Some(badge_for("signet", day(10))),
        ..offer()
    };
    assert!(AdoptCmd { force: false }.run(&renewal).is_ok());
    let another_device = Offer {
        stored: Some(badge_for("signet", day(10))),
        stored_binds: false,
        ..offer()
    };
    assert!(AdoptCmd { force: false }.run(&another_device).is_err());
}

/// A seed never takes the place of a key this machine holds, forced or not; its own key is no obstacle.
#[test]
fn a_machine_keeps_the_key_it_holds() {
    let other = Offer {
        derived: Some("child".to_owned()),
        ..offer()
    };
    for force in [false, true] {
        assert_eq!(
            refused(&other, force),
            "this machine already holds the key node, and nobody can re-issue it; adopting this invite \
             would replace it with child. Adopt it on a machine that has no key yet"
        );
    }
    let same = Offer {
        derived: Some("node".to_owned()),
        ..offer()
    };
    let adopted = AdoptCmd { force: false }.run(&same).expect("adopted");
    assert_eq!(adopted.node, "node");
    assert!(adopted.writes_identity);
}
