//! The ledger: enrolling, listing and revoking.

use swoosh::enrol::{
    AddCmd, Device, EnrolAct, EnrolStage, EnrolTold, GrantFor, fleet_deferred, refuse_shadowed,
};
use swoosh::ledger::{
    ANYONE, Delegation, GrantKind, GrantRecord, GrantTarget, Holder, KeyText, LabelReading, LsCmd, RmCmd,
    bound_to, label_for, live_per_holder, remaining, short_or_raw,
};
use swoosh::revoke::{RevokeCmd, Route, Shape};
use swoosh::span::Moment;

fn device(label: &str, key: &str) -> Device {
    Device {
        label: label.to_owned(),
        key: key.to_owned(),
        short: format!("{key}~"),
    }
}

/// A holder whose text reads as a key.
fn holder(key: &str) -> Holder {
    Holder {
        text: key.to_owned(),
        key: Some(KeyText {
            full: key.to_owned(),
            short: format!("{key}~"),
        }),
    }
}

fn membership(key: &str, secs: i64) -> GrantRecord {
    GrantRecord {
        target: GrantTarget::Membership,
        kind: GrantKind::Device,
        delegation: Delegation::Sealed,
        holder: holder(key),
        root_id: format!("{key}@{secs}"),
        expiry: Moment::from_unix(secs),
    }
}

#[test]
fn labels_resolve_under_me_and_fall_back_to_dash() {
    let devices = vec![
        device("desk", "node"),
        device("lappy", "node"),
        device("other", "second"),
    ];
    assert_eq!(label_for(&devices, &holder("node")), "desk,lappy");
    assert_eq!(label_for(&devices, &holder("second")), "other");
    assert_eq!(label_for(&devices, &holder("third")), "-");
    let unread = Holder {
        text: "node".to_owned(),
        key: None,
    };
    assert_eq!(label_for(&devices, &unread), "-");
    assert_eq!(short_or_raw(&unread), "node");
}

#[test]
fn a_renewed_device_reads_as_one_row_carrying_its_live_badge() {
    let rows = live_per_holder(vec![
        membership("desk", 1_000),
        membership("lappy", 2_000),
        membership("desk", 3_000),
        membership("desk", 2_500),
    ]);

    assert_eq!(
        rows.iter()
            .map(|row| row.holder.text.as_str())
            .collect::<Vec<_>>(),
        vec!["desk", "lappy"],
        "one row per holder, in first-appearance order"
    );
    assert_eq!(
        rows[0].expiry,
        Moment::from_unix(3_000),
        "the row shown for a renewed device is its LATEST-expiring badge, not its newest ledger row and \
         not its first"
    );
}

#[test]
fn distinct_holders_each_keep_their_row() {
    let rows = live_per_holder(vec![membership("a", 1), membership("b", 1)]);
    assert_eq!(rows.len(), 2, "two devices are two rows");
}

/// Collapsing what is already collapsed changes nothing, and of two badges that end together the first
/// stands.
#[test]
fn collapsing_twice_changes_nothing() {
    let ids = |rows: &Vec<GrantRecord>| {
        rows.iter()
            .map(|row| row.root_id.clone())
            .collect::<Vec<_>>()
    };
    let mut twin = membership("a", 5);
    twin.root_id = "twin".to_owned();
    let once = live_per_holder(vec![
        membership("a", 5),
        twin,
        membership("b", 1),
        membership("a", 4),
    ]);
    let shown = ids(&once);
    assert_eq!(shown, ["a@5", "b@1"]);
    assert_eq!(ids(&live_per_holder(once)), shown);
}

#[test]
fn bound_column_carries_a_fleet_row_without_a_token() {
    assert_eq!(bound_to(&membership("signet", 1)), "signet~");
    let fleet = GrantRecord {
        kind: GrantKind::Fleet,
        ..membership("signet", 1)
    };
    assert_eq!(bound_to(&fleet), "fleet:signet~");
    let bearer = GrantRecord {
        kind: GrantKind::Bearer,
        ..membership("signet", 1)
    };
    assert_eq!(bound_to(&bearer), "-");
}

#[test]
fn the_listing_fills_its_columns() {
    let now = Moment::from_unix(1_000_000);
    let service = GrantRecord {
        target: GrantTarget::Service("ssh".to_owned()),
        ..membership("desk", 9_000_000)
    };
    let records = vec![
        membership("desk", 1_000_000 + 34 * 86_400),
        membership("longerkey", 999_999),
        service,
    ];
    let devices = vec![device("desk", "desk"), device("lappy", "desk")];
    assert_eq!(
        LsCmd {}.run(records, &devices, now),
        [
            "desk,lappy  desk~       34d",
            "-           longerkey~  expired",
        ]
    );
    assert_eq!(
        LsCmd {}.run(Vec::new(), &devices, now),
        ["no invites created yet"]
    );
    assert_eq!(remaining(now, now), "0s");
}

/// A fleet is deferred before anything else.
#[test]
fn the_fleet_deferral_names_the_door_and_the_fix() {
    let message = fleet_deferred();
    assert!(
        message.contains("enrollment door") && message.contains("--for <key>"),
        "the deferral names the missing door and the per-device fix: {message}"
    );
    let fleet = AddCmd {
        label: "team".to_owned(),
        bind: Some(GrantFor::Fleet("theirs".to_owned())),
        expires: None,
    };
    assert_eq!(
        fleet.run("own", Some("other")).expect_err("deferred"),
        message
    );
}

fn add(bind: Option<GrantFor>, expires: Option<u64>) -> AddCmd {
    AddCmd {
        label: "desk".to_owned(),
        bind,
        expires,
    }
}

#[test]
fn a_badge_is_signed_only_by_the_signet() {
    let refused = add(None, None)
        .run("own", Some("signet"))
        .expect_err("another key is the signet");
    assert!(
        refused.starts_with("this machine trusts signet signet, but its own key is own: "),
        "{refused}"
    );
    let derived = add(None, None).run("own", Some("own")).expect("the signet");
    assert_eq!(derived.device, None);
    assert_eq!(derived.ttl, 90 * 86_400);
    let bound = add(Some(GrantFor::Device("key".to_owned())), Some(60))
        .run("own", None)
        .expect("no signet is configured");
    assert_eq!(bound.device.as_deref(), Some("key"));
    assert_eq!(bound.ttl, 60);
}

/// A signed badge is recorded by what it is revoked by, or not at all.
#[test]
fn a_badge_that_cannot_be_revoked_is_not_recorded() {
    let node = || KeyText {
        full: "node".to_owned(),
        short: "node~".to_owned(),
    };
    let row = add(None, None)
        .record(node(), Some("id".to_owned()), Moment::from_unix(9))
        .expect("recorded");
    assert_eq!(row.root_id, "id");
    assert_eq!(row.holder.text, "node");
    assert_eq!(bound_to(&row), "node~");
    assert!(matches!(row.target, GrantTarget::Membership));
    assert_eq!(row.delegation, Delegation::Sealed, "a badge is not handed on");
    assert_eq!(
        add(None, None)
            .record(node(), None, Moment::from_unix(9))
            .expect_err("no id"),
        "signed membership badge has no authority block to key revocation on"
    );
}

#[test]
fn the_lines_under_an_invite_follow_its_kind() {
    assert_eq!(
        add(None, None).lines("desk", "node", "signet"),
        [
            "recorded me/desk -> node  [derived]",
            "hand this invite to the machine (a SECRET: adopting it becomes this identity and trusts your \
             signet).",
        ]
    );
    let bound = add(Some(GrantFor::Device("node".to_owned())), None).lines("desk", "node", "signet");
    assert_eq!(bound.len(), 4);
    assert_eq!(bound[0], "recorded me/desk -> node");
    assert_eq!(bound[1], "signet signet");
    assert_eq!(
        bound[2],
        "hand this invite back to that key: it admits node only."
    );
}

/// A step of an enrolment that is not refused.
fn enrolled(cmd: &AddCmd, stage: EnrolStage, told: EnrolTold) -> (EnrolStage, Vec<EnrolAct>) {
    cmd.enrol(stage, told).expect("the enrolment goes on")
}

/// The row lands before the name, and the token prints after both.
#[test]
fn the_row_lands_before_the_name() {
    let cmd = add(None, Some(60));
    let node = || KeyText {
        full: "node".to_owned(),
        short: "node~".to_owned(),
    };
    let (stage, acts) = enrolled(
        &cmd,
        EnrolStage::Start,
        EnrolTold::Begun {
            label: Ok("desk".to_owned()),
        },
    );
    assert!(matches!(acts.as_slice(), [EnrolAct::ReadKeys]), "{acts:?}");
    let (stage, acts) = enrolled(
        &cmd,
        stage,
        EnrolTold::Keys {
            own: "signet".to_owned(),
            configured: None,
        },
    );
    assert!(
        matches!(acts.as_slice(), [EnrolAct::Derive { label }] if label == "desk"),
        "{acts:?}"
    );
    let (stage, acts) = enrolled(
        &cmd,
        stage,
        EnrolTold::Resolved {
            node: node(),
            devices: vec![device("desk", "node")],
        },
    );
    assert!(
        matches!(acts.as_slice(), [EnrolAct::Sign { node, ttl: 60 }] if node.full == "node"),
        "{acts:?}"
    );
    let (stage, acts) = enrolled(
        &cmd,
        stage,
        EnrolTold::Signed {
            root_id: Some("id".to_owned()),
            expiry: Moment::from_unix(9),
        },
    );
    match acts.as_slice() {
        [EnrolAct::Append { row }] => {
            assert_eq!(row.root_id, "id");
            assert_eq!(row.holder.text, "node");
            assert_eq!(row.delegation, Delegation::Sealed);
        }
        other => panic!("the row lands first: {other:?}"),
    }
    let (stage, acts) = enrolled(&cmd, stage, EnrolTold::Appended);
    assert!(
        matches!(
            acts.as_slice(),
            [EnrolAct::NameDevice { label, node }] if label == "desk" && node.full == "node"
        ),
        "{acts:?}"
    );
    let (stage, acts) = enrolled(&cmd, stage, EnrolTold::Saved);
    assert!(matches!(stage, EnrolStage::Over));
    assert!(
        matches!(
            acts.as_slice(),
            [EnrolAct::PrintToken, EnrolAct::Say(first), EnrolAct::Say(_), EnrolAct::Recut]
                if first == "recorded me/desk -> node  [derived]"
        ),
        "{acts:?}"
    );
}

#[test]
fn every_refusal_of_an_enrolment_ends_it() {
    let refused = |cmd: &AddCmd, stage: EnrolStage, told: EnrolTold| {
        cmd.enrol(stage, told).expect_err("it is refused")
    };
    let fleet = add(Some(GrantFor::Fleet("alice".to_owned())), None);
    assert_eq!(
        refused(
            &fleet,
            EnrolStage::Start,
            EnrolTold::Begun {
                label: Err("the rule".to_owned())
            }
        ),
        "the rule",
        "a bad label fails before anything else"
    );
    assert_eq!(
        refused(
            &fleet,
            EnrolStage::Start,
            EnrolTold::Begun {
                label: Ok("desk".to_owned())
            }
        ),
        fleet_deferred(),
        "a fleet is deferred before a key is read"
    );
    assert!(
        refused(
            &add(None, None),
            EnrolStage::ReadingKeys {
                label: "desk".to_owned()
            },
            EnrolTold::Keys {
                own: "own".to_owned(),
                configured: Some("signet".to_owned()),
            }
        )
        .starts_with("this machine trusts signet signet, but its own key is own: ")
    );
    assert!(
        refused(
            &add(None, None),
            EnrolStage::Resolving {
                label: "desk".to_owned(),
                own: "own".to_owned(),
                ttl: 1,
            },
            EnrolTold::Resolved {
                node: KeyText {
                    full: "third".to_owned(),
                    short: "third~".to_owned(),
                },
                devices: vec![device("nas", "second"), device("desk", "first")],
            }
        )
        .starts_with("`me/desk` already names first~; "),
        "a shadowed label is refused before a derived badge is signed too"
    );
    assert_eq!(
        refused(
            &add(None, None),
            EnrolStage::Signing {
                label: "desk".to_owned(),
                own: "own".to_owned(),
                node: KeyText {
                    full: "node".to_owned(),
                    short: "node~".to_owned(),
                },
            },
            EnrolTold::Signed {
                root_id: None,
                expiry: Moment::from_unix(9),
            }
        ),
        "signed membership badge has no authority block to key revocation on"
    );
}

/// A label names one key.
#[test]
fn a_label_is_not_reused_for_another_key() {
    let devices = vec![device("desk", "first"), device("nas", "second")];
    assert_eq!(refuse_shadowed(&devices, "desk", "first"), Ok(()));
    assert_eq!(refuse_shadowed(&devices, "new", "third"), Ok(()));
    assert_eq!(
        refuse_shadowed(&devices, "desk", "third"),
        Err(
            "`me/desk` already names first~; re-using the label for third would leave the first badge live \
             with no label that cancels it. Cut it with `invite rm desk`, then free the name with `swoosh \
             contact rm me/desk`"
                .to_owned()
        )
    );
}

fn rm(label: &str) -> RmCmd {
    RmCmd {
        label: label.to_owned(),
    }
}

#[test]
fn a_label_stands_for_one_device() {
    let desk = rm("desk");
    assert_eq!(
        desk.holder(&LabelReading::Key("key".to_owned())),
        Ok("key".to_owned())
    );
    assert_eq!(
        desk.holder(&LabelReading::Named(vec!["key".to_owned()])),
        Ok("key".to_owned())
    );
    for keys in [Vec::new(), vec!["a".to_owned(), "b".to_owned()]] {
        assert_eq!(
            desk.holder(&LabelReading::Named(keys)),
            Err("no invite named `desk`; list yours with `swoosh invite ls`".to_owned())
        );
    }
    assert_eq!(
        desk.holder(&LabelReading::NoName),
        Err(
            "`desk` is not an invite label; pass the label you gave `invite add`, or the raw device key"
                .to_owned()
        )
    );
}

/// Cancelling an invite cuts every badge of the device, and no service grant.
#[test]
fn cancelling_cuts_every_badge_of_the_device() {
    let service = GrantRecord {
        target: GrantTarget::Service("ssh".to_owned()),
        ..membership("key", 3)
    };
    let records = vec![
        membership("key", 1),
        membership("other", 2),
        service,
        membership("key", 4),
    ];
    let cut = rm("desk")
        .run(&records, "key", "/ledger", "/deny")
        .expect("two badges");
    assert_eq!(cut.ids, ["key@1", "key@4"]);
    assert_eq!(cut.line, "revoked 2 badge(s) for desk (/deny)");
    assert_eq!(
        rm("desk")
            .run(&records, "nobody", "/ledger", "/deny")
            .expect_err("nothing is recorded"),
        "no invite recorded for `desk` in the ledger (/ledger); list yours with `swoosh invite ls`, or cut a \
         service grant with `swoosh grant revoke desk`"
    );
}

fn revoke(target: &str) -> RevokeCmd {
    RevokeCmd {
        target: target.to_owned(),
    }
}

/// The placeholder of a bearer grant names no holder.
#[test]
fn the_placeholder_names_no_holder() {
    let refused = revoke(ANYONE)
        .run(&Shape::Plain)
        .expect_err("the placeholder is no target");
    assert!(
        refused.starts_with("`-` is the placeholder for a bearer grant's holder"),
        "{refused}"
    );
    assert_eq!(revoke("alice").run(&Shape::Plain), Ok(Route::Holder));
    assert_eq!(revoke("swoosh:x").run(&Shape::Link), Ok(Route::Link));
    assert_eq!(
        revoke("x").run(&Shape::BareLink {
            line: "prefix it".to_owned()
        }),
        Err("prefix it".to_owned())
    );
}

/// A holder is revoked by its text and by every key it resolves to.
#[test]
fn a_holder_is_revoked_by_every_row() {
    let records = vec![
        membership("alice", 1),
        membership("key", 2),
        membership("bob", 3),
    ];
    let cut = revoke("alice")
        .revoke_holder(&records, &vec!["key".to_owned()], "/ledger", "/deny")
        .expect("two rows");
    assert_eq!(cut.ids, ["alice@1", "key@2"]);
    assert_eq!(cut.line, "revoked 2 grant(s) to alice (/deny)");
    let none = revoke("carol")
        .revoke_holder(&records, &Vec::new(), "/ledger", "/deny")
        .expect_err("no row");
    assert!(
        none.starts_with("no grant issued to `carol` is recorded in the ledger (/ledger); "),
        "{none}"
    );
}
