//! Learning a fleet, publishing it, and the names in the address book.

use std::io::Read;

use swoosh::contact::{ContactCmd, ContactRef, Removed, refuse_me, removed_line};
use swoosh::fleet::{
    FleetCmd, Hydrated, MAX_ROSTER_BLOB, PullAct, PullStage, PullTold, RosterError,
};
use swoosh::recut::after_membership_change;

fn pull() -> FleetCmd {
    FleetCmd {
        pull: "coord".to_owned(),
        present: None,
    }
}

#[test]
fn a_roster_under_the_cap_reads_back_whole() {
    for count in [0, 1, 32] {
        let blob = vec![7u8; count];
        assert_eq!(pull().read_roster(blob.clone()), Ok(blob));
    }
}

#[test]
fn a_blob_at_the_ceiling_is_read_whole_rather_than_truncated() {
    let at_ceiling = vec![0xAAu8; MAX_ROSTER_BLOB];
    let read = pull()
        .read_roster(at_ceiling)
        .expect("a blob at the ceiling is a legitimate roster, not an overrun");
    assert_eq!(read.len(), MAX_ROSTER_BLOB);
    assert_eq!(MAX_ROSTER_BLOB, 1 << 20);
}

/// How many times a roster's ceiling a flooding node offers.
const FLOOD_MULTIPLE: usize = 4;

/// A coordination node that streams on: it answers with `remaining` bytes and counts what it handed over.
struct FloodingNode {
    remaining: usize,
    delivered: usize,
}

impl Read for FloodingNode {
    fn read(&mut self, buf: &mut [u8]) -> std::io::Result<usize> {
        let want = self.remaining.min(buf.len());
        buf[..want].fill(0xAA);
        self.remaining -= want;
        self.delivered += want;
        Ok(want)
    }
}

#[test]
fn a_flooding_coordination_node_is_refused_before_it_fills_the_buffer() {
    let mut node = FloodingNode {
        remaining: MAX_ROSTER_BLOB * FLOOD_MULTIPLE,
        delivered: 0,
    };
    let (stage, acts) = pull()
        .pull(
            PullStage::Start,
            PullTold::Begun {
                signet: Some("signet".to_owned()),
                disabled: false,
            },
        )
        .expect("begun");
    let limit = match acts.as_slice() {
        [PullAct::Ask { limit }] => *limit,
        other => panic!("the node is asked: {other:?}"),
    };
    assert_eq!(limit, pull().read_limit());
    let mut bytes = Vec::new();
    (&mut node)
        .take(limit as u64)
        .read_to_end(&mut bytes)
        .expect("the node answers");
    let message = pull()
        .pull(stage, PullTold::Read { bytes })
        .expect_err("a node streaming past the cap must be refused, never buffered");
    assert!(
        message.contains("sent more than a roster can be"),
        "the refusal says the node overran the read, not that its roster is unsigned: {message}"
    );
    assert!(
        message.contains("coord"),
        "the refusal names which node did it: {message}"
    );
    assert!(
        node.delivered <= MAX_ROSTER_BLOB + 1,
        "the client took {} bytes of the {} the node offered; the read is not bounded",
        node.delivered,
        MAX_ROSTER_BLOB * FLOOD_MULTIPLE
    );
}

#[test]
fn a_disabled_signet_refuses_the_pull_before_dialing() {
    let refusal = pull()
        .begin(Some("signet"), true)
        .expect_err("a disabled signet refuses");
    assert!(
        refusal.contains("disabled at this node"),
        "the pull is refused for the disabled signet, before any dial: {refusal}"
    );
    assert_eq!(
        pull().begin(None, false),
        Err("this node has no signet; run `swoosh adopt <invite>` first".to_owned())
    );
}

#[test]
fn a_live_signet_goes_on_to_dial() {
    assert_eq!(pull().begin(Some("signet"), false), Ok(()));
}

/// A node that has cut nothing is not a node that forges.
#[test]
fn an_empty_roster_is_not_a_forged_one() {
    assert_eq!(
        pull().unverified(&RosterError::Empty),
        "coord has not cut a roster yet. Run `swoosh invite add <label>` on the machine holding your signet; \
         that is what publishes one"
    );
    assert_eq!(
        pull().unverified(&RosterError::Unsigned("bad signature".to_owned())),
        "roster is not signed by your signet (bad signature); refusing to hydrate"
    );
}

/// A pull reports what it did and no more.
#[test]
fn a_pull_claims_only_what_it_did() {
    let applied = pull()
        .report(
            9,
            &Hydrated::Applied {
                removed: vec!["nas".to_owned(), "old".to_owned()],
                skipped: 1,
                bound: 3,
            },
        )
        .expect("applied");
    assert!(applied.saves);
    assert_eq!(
        applied.lines,
        [
            "removed 2 device(s) your fleet no longer lists: nas, old",
            "kept your own binding for 1 member(s) (a name you set wins over the roster)",
            "pulled 3 member(s) into your fleet from coord; reach one with `swoosh ssh me/<device>`",
        ]
    );
    let nothing = pull()
        .report(
            9,
            &Hydrated::Applied {
                removed: Vec::new(),
                skipped: 0,
                bound: 0,
            },
        )
        .expect("applied");
    assert_eq!(nothing.lines, ["pulled nothing new from coord"]);
    let older = pull()
        .report(4, &Hydrated::NotNewer { floor: 5 })
        .expect("nothing to do");
    assert!(!older.saves);
    assert_eq!(
        older.lines,
        ["nothing to pull: the roster coord served is at epoch 4, and you already have epoch 5"]
    );
    let unversioned = pull()
        .report(0, &Hydrated::Unversioned)
        .expect_err("no version");
    assert!(
        unversioned.starts_with("the roster coord served carries no version, "),
        "{unversioned}"
    );
}

/// A pull up to the answer of the verification.
fn verifying() -> PullStage {
    let (stage, acts) = pull()
        .pull(
            PullStage::Start,
            PullTold::Begun {
                signet: Some("signet".to_owned()),
                disabled: false,
            },
        )
        .expect("begun");
    assert!(matches!(acts.as_slice(), [PullAct::Ask { .. }]), "{acts:?}");
    let (stage, acts) = pull()
        .pull(
            stage,
            PullTold::Read {
                bytes: vec![1, 2, 3],
            },
        )
        .expect("read");
    assert!(
        matches!(
            acts.as_slice(),
            [PullAct::Verify { roster, signet }] if roster == &[1, 2, 3] && signet == "signet"
        ),
        "{acts:?}"
    );
    stage
}

/// A fold follows only a verified roster, and a save only an applied fold.
#[test]
fn a_fold_follows_only_a_verified_roster() {
    let (folding, acts) = pull()
        .pull(verifying(), PullTold::Verified { verified: Ok(9) })
        .expect("verified");
    assert!(
        matches!(acts.as_slice(), [PullAct::Fold { roster }] if roster == &[1, 2, 3]),
        "{acts:?}"
    );
    let (saving, acts) = pull()
        .pull(
            folding,
            PullTold::Folded {
                hydrated: Hydrated::Applied {
                    removed: Vec::new(),
                    skipped: 0,
                    bound: 0,
                },
            },
        )
        .expect("applied");
    assert!(matches!(acts.as_slice(), [PullAct::Save]), "{acts:?}");
    let (over, acts) = pull().pull(saving, PullTold::Saved).expect("saved");
    assert!(matches!(over, PullStage::Over));
    assert!(
        matches!(acts.as_slice(), [PullAct::Say(line)] if line == "pulled nothing new from coord"),
        "{acts:?}"
    );
}

/// What does not verify, carries no version or is not newer folds and saves nothing.
#[test]
fn a_roster_that_is_not_taken_changes_nothing() {
    for (error, words) in [
        (RosterError::Empty, "coord has not cut a roster yet."),
        (
            RosterError::Unsigned("bad signature".to_owned()),
            "roster is not signed by your signet (bad signature)",
        ),
    ] {
        let refused = pull()
            .pull(
                verifying(),
                PullTold::Verified {
                    verified: Err(error),
                },
            )
            .expect_err("it does not verify");
        assert!(refused.starts_with(words), "{refused}");
    }
    let folded = |hydrated: Hydrated| {
        pull().pull(PullStage::Folding { epoch: 4 }, PullTold::Folded { hydrated })
    };
    assert!(folded(Hydrated::Unversioned).is_err());
    let (over, acts) = folded(Hydrated::NotNewer { floor: 5 }).expect("nothing to do");
    assert!(matches!(over, PullStage::Over));
    assert!(matches!(acts.as_slice(), [PullAct::Say(_)]), "{acts:?}");
    assert!(
        pull()
            .pull(
                PullStage::Start,
                PullTold::Begun {
                    signet: None,
                    disabled: false,
                },
            )
            .is_err()
    );
    assert!(
        pull()
            .pull(
                PullStage::Asking {
                    signet: "signet".to_owned()
                },
                PullTold::Read {
                    bytes: vec![0; MAX_ROSTER_BLOB + 1]
                },
            )
            .is_err()
    );
}

/// Only the machine that holds the signet cuts a roster.
#[test]
fn a_member_device_cuts_nothing() {
    assert!(!after_membership_change(true, Some("own"), Some("signet")));
}

/// The signet's own machine cuts, configured as its own signet or with none.
#[test]
fn the_signets_machine_cuts() {
    assert!(after_membership_change(true, Some("own"), None));
    assert!(after_membership_change(true, Some("own"), Some("own")));
}

/// An unversioned book publishes nothing: there is no membership set worth a puller's floor yet.
#[test]
fn an_unversioned_book_cuts_nothing() {
    assert!(!after_membership_change(false, Some("own"), None));
    assert!(!after_membership_change(false, Some("own"), Some("own")));
}

/// A home without a key is nobody's fleet.
#[test]
fn a_home_with_no_key_cuts_nothing() {
    assert!(!after_membership_change(true, None, None));
    assert!(!after_membership_change(true, None, Some("signet")));
}

fn name(petname: &str, device: Option<&str>) -> ContactRef {
    ContactRef {
        petname: petname.to_owned(),
        device: device.map(str::to_owned),
    }
}

#[test]
fn contact_add_me_is_refused_and_writes_nothing() {
    for under_me in [name("me", Some("phone")), name("me", None)] {
        let message = ContactCmd::Add {
            name: under_me,
            key: "key".to_owned(),
        }
        .run()
        .expect_err("an add under me/ refuses");
        assert!(
            message.contains("swoosh invite <name> <key>")
                && message.contains("swoosh revoke me/<name>"),
            "the refusal names both verbs: {message}"
        );
    }
}

/// Every other name is the address book's to keep.
#[test]
fn an_edit_outside_me_goes_on() {
    assert_eq!(refuse_me(&name("alice", Some("macbook"))), Ok(()));
    assert_eq!(refuse_me(&name("me2", None)), Ok(()));
    let runs = [
        ContactCmd::Add {
            name: name("alice", None),
            key: "key".to_owned(),
        },
        ContactCmd::Rm {
            name: name("alice", Some("me")),
        },
        ContactCmd::Signet {
            petname: "me".to_owned(),
            key: "key".to_owned(),
        },
        ContactCmd::Ls {
            person: Some("me".to_owned()),
        },
    ];
    for cmd in runs {
        assert_eq!(cmd.run(), Ok(()), "{cmd:?}");
    }
    assert!(
        ContactCmd::Rm {
            name: name("me", Some("desk"))
        }
        .run()
        .is_err()
    );
}

#[test]
fn a_removal_saves_only_where_it_removed() {
    let alice = name("alice", Some("macbook"));
    assert_eq!(
        removed_line(&alice, Removed::Removed),
        ("removed alice/macbook".to_owned(), true)
    );
    assert_eq!(
        removed_line(&name("bob", None), Removed::Absent),
        (
            "no such contact bob; nothing to remove".to_owned(),
            false
        )
    );
    assert_eq!(alice.text(), "alice/macbook");
}
