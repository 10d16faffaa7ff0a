//! Inviting a device: the plan, the lines, and the course of one act.

use swoosh::invite::{
    Ask, DEFAULT_DURATION, InviteCmd, Issued, KeyFault, LONGEST, ME, Plan, Row, SHORT_LIVED, SHORTEST,
    device_expiry, find_live, needs_no_renewal, no_device_line, own_duration, parse_key, parse_name, plan,
    refuse_a_contact, refuse_before_the_first_root,
};
use swoosh::issue::{Act, Records, Sign, Signed, Stage, StoredStanding, Told};
use swoosh::span::Moment;
use swoosh::standing::Standing;

const DAY: u64 = 24 * 60 * 60;
/// 2026-09-25.
const TODAY: u64 = 1_790_294_400;

const OWN: &str = "bf01own";
const TV: &str = "bf01tv";
const LAPTOP: &str = "bf01laptop";

fn row(label: &str, key: &str, until: u64) -> Row {
    Row {
        key: key.to_owned(),
        label: label.to_owned(),
        until,
        duration: 0,
        revoked_on: 0,
    }
}

fn invite(name: &str, key: Option<&str>) -> InviteCmd {
    InviteCmd {
        name: Some(name.to_owned()),
        key: key.map(str::to_owned),
        new_key: false,
        expires: None,
        root: None,
    }
}

fn records(device: Option<Row>) -> Records {
    Records {
        device,
        refused: None,
        rows: Vec::new(),
        now: TODAY,
    }
}

#[test]
fn a_device_expiry_is_an_hour_to_a_year() {
    for secs in [SHORTEST, 90 * DAY, LONGEST] {
        assert_eq!(device_expiry(Ok(secs)), Ok(secs));
    }
    for secs in [0, SHORTEST - 1, LONGEST + 1] {
        assert_eq!(
            device_expiry(Ok(secs)),
            Err("a device's --expires is 1h to 365d".to_owned())
        );
    }
    assert_eq!(
        device_expiry(Err("no unit".to_owned())),
        Err("no unit".to_owned())
    );
}

#[test]
fn a_revoked_row_is_not_the_named_device() {
    let mut revoked = row("ci", "bf01old", TODAY);
    revoked.revoked_on = TODAY;
    let mut own = row("ci", "bf01new", TODAY);
    own.duration = 7 * DAY;
    let rows = vec![row("desk", OWN, TODAY), revoked, own];
    assert_eq!(
        find_live(&rows, "ci").map(|row| row.key.as_str()),
        Some("bf01new")
    );
    assert!(find_live(&rows, "tv").is_none());
    assert_eq!(own_duration(&rows, "ci"), 7 * DAY);
    assert_eq!(own_duration(&rows, "desk"), DEFAULT_DURATION);
    assert_eq!(own_duration(&rows, "tv"), DEFAULT_DURATION);
}

#[test]
fn invite_refuses_a_second_positional_that_is_no_key() {
    assert_eq!(parse_key(TV, Ok(TV.to_owned())), Ok(TV.to_owned()));
    assert_eq!(
        parse_key("laptop", Err(KeyFault::NotAKey)),
        Err("laptop is not a key: to renew laptop, swoosh invite laptop".to_owned())
    );
}

/// The check that a key with a torsion component fails.
const TORSION: &str = "carries a torsion component";

/// A torsioned key is refused as the key an invite admits, naming the check it failed, never read as a name
/// to renew.
#[test]
fn a_torsioned_key_is_refused_as_an_invite_key() {
    let key = "bf01torsioned";
    let refused = || Err(KeyFault::Unusable(TORSION.to_owned()));
    let error = parse_key(key, refused()).expect_err("a torsioned key is refused");
    assert!(
        error.contains(&format!(
            "{key} is not a usable key: carries a torsion component"
        )),
        "the refusal names the key and the check: {error}"
    );
    assert!(!error.contains("to renew"), "{error}");
    assert_eq!(
        invite("tv", Some(key))
            .issue(Stage::Start, Told::Begun { parsed: refused() })
            .expect_err("the act ends there"),
        error
    );
}

/// Text that is a key is never a name: typed where the name goes, it is refused, naming the form that takes
/// a key; one nobody can hold is refused with the line every typed key refuses with.
#[test]
fn invite_refuses_a_key_typed_as_the_name() {
    let key = TV;
    let error = parse_name(key, Ok(key.to_owned()), Ok(key.to_owned())).expect_err("no name");
    assert!(
        error.contains(&format!(
            "{key} is a key, not a name: swoosh invite <name> {key}"
        )),
        "{error}"
    );
    let torsioned = "bf01torsioned";
    let error = parse_name(
        torsioned,
        Err(KeyFault::Unusable(TORSION.to_owned())),
        Ok(torsioned.to_owned()),
    )
    .expect_err("no name");
    assert!(
        error.contains(&format!(
            "{torsioned} is not a usable key: carries a torsion component"
        )),
        "{error}"
    );
    assert_eq!(
        parse_name("Laptop", Err(KeyFault::NotAKey), Ok("laptop".to_owned())),
        Ok("laptop".to_owned())
    );
    assert_eq!(
        parse_name("bad.name", Err(KeyFault::NotAKey), Err("the rule".to_owned())),
        Err("the rule".to_owned())
    );
}

#[test]
fn invite_refuses_a_contacts_name() {
    let book = vec![ME.to_owned(), "alice".to_owned()];
    assert_eq!(
        refuse_a_contact(&book, "alice"),
        Err(
            "alice is a contact: to let alice use a service, swoosh share <service> alice".to_owned()
        )
    );
    assert_eq!(refuse_a_contact(&book, ME), Ok(()));
    assert_eq!(refuse_a_contact(&book, "tv"), Ok(()));
}

#[test]
fn the_first_root_has_no_device_to_renew() {
    let refuse = |ask: &Ask| refuse_before_the_first_root(OWN, "desk", "tv", ask);
    assert_eq!(refuse(&Ask::NewKey), Ok(()));
    assert_eq!(refuse(&Ask::Add(TV.to_owned())), Ok(()));
    assert_eq!(
        refuse(&Ask::Add(OWN.to_owned())),
        Err("that is this machine's key; it is already your device me/desk".to_owned())
    );
    assert_eq!(refuse(&Ask::Renew), Err(no_device_line("tv")));
    assert_eq!(
        no_device_line("tv"),
        "you have no device tv. For a machine with no console: swoosh invite tv --new-key. Otherwise: \
         swoosh invite tv <its key>."
    );
}

#[test]
fn a_plan_follows_the_records() {
    let laptop = row("laptop", LAPTOP, TODAY + DAY);
    let planned = |device: Option<&Row>, ask: Ask, refused: Option<&str>| {
        plan(
            device,
            "laptop",
            &ask,
            refused.map(str::to_owned),
            TODAY,
        )
    };
    let new_line =
        "me/laptop will be one of your own devices: it reaches everything your devices serve.";

    let added = planned(None, Ask::Add(TV.to_owned()), None).expect("added");
    assert!(matches!(added.plan, Plan::Add(ref key) if key == TV));
    assert_eq!(added.line.as_deref(), Some(new_line));
    let keyed = planned(None, Ask::NewKey, Some("not asked")).expect("keyed");
    assert!(matches!(keyed.plan, Plan::Keyed));
    assert_eq!(keyed.line.as_deref(), Some(new_line));
    let same = planned(Some(&laptop), Ask::Add(LAPTOP.to_owned()), Some("taken")).expect("renewed");
    assert!(matches!(same.plan, Plan::Renew));
    assert_eq!(same.line, None);
    let rekeyed = planned(Some(&laptop), Ask::NewKey, None).expect("rekeyed");
    assert!(matches!(rekeyed.plan, Plan::Rekey));
    assert_eq!(rekeyed.line, None);

    for (device, ask) in [
        (None, Ask::Add(TV.to_owned())),
        (Some(&laptop), Ask::Add(TV.to_owned())),
        (Some(&laptop), Ask::NewKey),
    ] {
        assert_eq!(
            planned(device, ask, Some("the records refuse it")).expect_err("refused"),
            "the records refuse it"
        );
    }
    assert_eq!(
        planned(None, Ask::Renew, None).expect_err("no device"),
        no_device_line("laptop")
    );
}

#[test]
fn renewing_a_lapsed_row_prints_its_key_and_the_revoke_line_before_the_prompt() {
    let lapsed = row("laptop", LAPTOP, TODAY);
    let (stage, acts) = invite("laptop", None)
        .issue(
            Stage::Opening { ask: Ask::Renew },
            Told::Read {
                records: records(Some(lapsed)),
            },
        )
        .expect("planned");
    assert!(matches!(
        stage,
        Stage::Unlocking {
            plan: Plan::Renew,
            ..
        }
    ));
    match acts.as_slice() {
        [Act::Say(line), Act::Unlock] => assert_eq!(
            line,
            "renewing me/laptop (bf01laptop), which ended on 2026-09-25. Whatever machine holds bf01laptop \
             picks this up the next time it reaches one of your devices. If that is not a machine you still \
             have, stop here and run: swoosh revoke me/laptop"
        ),
        other => panic!("the line comes before the passphrase: {other:?}"),
    }
}

#[test]
fn a_short_invite_says_a_leaked_copy_dies_with_it() {
    assert_eq!(
        Issued::bound(DEFAULT_DURATION, true).lines("me/tv", TODAY + DEFAULT_DURATION),
        ["me/tv runs 90d from now, until 2026-12-24 (the default; --expires sets 1h to 365d)."]
    );
    assert_eq!(
        Issued::bound(SHORT_LIVED - 1, false).lines("me/tv", TODAY + 29 * DAY),
        [
            "me/tv runs 29d from now, until 2026-10-24.",
            "it ends on its date and is not renewed on its own, so a leaked copy dies with it",
        ]
    );
    assert_eq!(
        Issued::bound(SHORT_LIVED, false)
            .lines("me/tv", TODAY)
            .len(),
        1
    );
}

#[test]
fn a_key_carrying_invite_says_who_holding_it_becomes() {
    let keyed = Issued {
        carries_key: true,
        ..Issued::bound(DEFAULT_DURATION, true)
    };
    assert_eq!(
        keyed.lines("me/tv", TODAY + DEFAULT_DURATION),
        [
            "me/tv runs 90d from now, until 2026-12-24 (the default; --expires sets 1h to 365d).",
            "anyone holding this invite becomes me/tv until 2026-12-24: send it privately.",
            "it ends on 2026-12-24 and is not renewed on its own",
        ]
    );
}

#[test]
fn invite_new_key_leaves_the_old_invite_valid_to_its_date() {
    let rekeyed = Issued {
        carries_key: true,
        old_invite_until: Some(TODAY),
        ..Issued::bound(7 * DAY, false)
    };
    let lines = rekeyed.lines("me/ci", TODAY + 7 * DAY);
    assert_eq!(
        lines[1],
        "me/ci's new key is inside this invite: send it privately. If me/ci starts from its invite each \
         time, give it this one the way it got the last (a runner: gh secret set SWOOSH_INVITE). The old \
         invite works until 2026-09-25."
    );
    assert_eq!(lines[2], "it ends on 2026-10-02 and is not renewed on its own");
}

#[test]
fn invite_own_name_prints_no_join_line() {
    assert_eq!(
        needs_no_renewal("desk", TODAY, true),
        "me/desk needs no renewal (until 2026-09-25)."
    );
    assert_eq!(
        needs_no_renewal("laptop", TODAY, false),
        "me/laptop needs no renewal (until 2026-09-25). If it left, or its date passed, on it: swoosh join \
         and paste this line."
    );
}

/// Drive an act from its command line to the point where this machine's standing is asked for.
fn to_standing(cmd: &InviteCmd, parsed: Option<&str>) -> Stage {
    let (stage, acts) = cmd
        .issue(
            Stage::Start,
            Told::Begun {
                parsed: parsed.map(str::to_owned).ok_or(KeyFault::NotAKey),
            },
        )
        .expect("begun");
    assert!(matches!(acts.as_slice(), [Act::ReadContacts]), "{acts:?}");
    let (stage, acts) = cmd
        .issue(
            stage,
            Told::Contacts {
                petnames: vec!["alice".to_owned()],
            },
        )
        .expect("no contact");
    assert!(matches!(acts.as_slice(), [Act::ReadStanding]), "{acts:?}");
    stage
}

fn told_standing(standing: Standing) -> Told {
    Told::Standing {
        standing,
        own: OWN.to_owned(),
        suggested: "desk".to_owned(),
    }
}

fn lines(acts: &[Act]) -> Vec<&str> {
    acts.iter()
        .filter_map(|act| match act {
            Act::Say(line) => Some(line.as_str()),
            _ => None,
        })
        .collect()
}

#[test]
fn the_invite_prints_only_after_commit() {
    let cmd = invite("tv", Some(TV));
    let stage = to_standing(&cmd, Some(TV));
    let (stage, acts) = cmd
        .issue(stage, told_standing(Standing::HoldsRoot))
        .expect("a device");
    assert!(matches!(acts.as_slice(), [Act::ReadStored]), "{acts:?}");
    let (stage, acts) = cmd
        .issue(
            stage,
            Told::Stored {
                found: None,
                own: OWN.to_owned(),
            },
        )
        .expect("nothing stored");
    assert!(matches!(acts.as_slice(), [Act::OpenRoot]), "{acts:?}");
    let (stage, acts) = cmd
        .issue(
            stage,
            Told::Read {
                records: records(None),
            },
        )
        .expect("planned");
    assert_eq!(
        lines(&acts),
        ["me/tv will be one of your own devices: it reaches everything your devices serve."]
    );
    assert!(matches!(acts.last(), Some(Act::Unlock)), "{acts:?}");
    let (stage, acts) = cmd.issue(stage, Told::Unlocked).expect("unlocked");
    assert!(
        matches!(
            acts.as_slice(),
            [Act::Sign(Sign::Standing { key, duration })] if key == TV && *duration == DEFAULT_DURATION
        ),
        "{acts:?}"
    );
    let (stage, acts) = cmd
        .issue(
            stage,
            Told::Signed {
                signed: Signed::Done,
                rows: vec![row("tv", TV, TODAY + DEFAULT_DURATION)],
            },
        )
        .expect("signed");
    assert!(matches!(acts.as_slice(), [Act::Commit]), "{acts:?}");
    let (stage, acts) = cmd
        .issue(
            stage,
            Told::Committed {
                rows: vec![row("tv", TV, TODAY + DEFAULT_DURATION)],
                own: OWN.to_owned(),
            },
        )
        .expect("written");
    assert!(matches!(acts.first(), Some(Act::PrintInvite)), "{acts:?}");
    assert!(matches!(acts.last(), Some(Act::Offer)), "{acts:?}");
    assert_eq!(
        lines(&acts),
        ["me/tv runs 90d from now, until 2026-12-24 (the default; --expires sets 1h to 365d)."]
    );
    let (stage, acts) = cmd
        .issue(
            stage,
            Told::Offered {
                invite_line: Some("told".to_owned()),
                renewed_line: Some("only a renewal says this".to_owned()),
            },
        )
        .expect("offered");
    assert!(matches!(stage, Stage::Over));
    assert_eq!(lines(&acts), ["told"]);
}

#[test]
fn a_named_renewal_under_a_day_signs_nothing() {
    let cmd = invite("laptop", None);
    let stage = to_standing(&cmd, None);
    let (stage, _) = cmd
        .issue(
            stage,
            told_standing(Standing::Device {
                pin: "bf01root".to_owned(),
                until: Moment::from_unix(TODAY as i64),
            }),
        )
        .expect("a device");
    let (stage, acts) = cmd
        .issue(
            stage,
            Told::Stored {
                found: Some(StoredStanding {
                    key: LAPTOP.to_owned(),
                    until: TODAY,
                }),
                own: OWN.to_owned(),
            },
        )
        .expect("stored");
    assert!(matches!(stage, Stage::Over));
    assert!(matches!(acts.first(), Some(Act::PrintStored)), "{acts:?}");
    assert_eq!(lines(&acts), [needs_no_renewal("laptop", TODAY, false)]);
}

/// A stored standing of another key than the asked one is no answer to the ask.
#[test]
fn a_stored_standing_of_another_key_does_not_print() {
    let cmd = invite("laptop", Some(TV));
    let (stage, acts) = cmd
        .issue(
            Stage::AskedStored {
                ask: Ask::Add(TV.to_owned()),
            },
            Told::Stored {
                found: Some(StoredStanding {
                    key: LAPTOP.to_owned(),
                    until: TODAY,
                }),
                own: OWN.to_owned(),
            },
        )
        .expect("opened");
    assert!(matches!(stage, Stage::Opening { .. }));
    assert!(matches!(acts.as_slice(), [Act::OpenRoot]), "{acts:?}");
}

#[test]
fn the_first_invite_makes_the_root() {
    let cmd = InviteCmd {
        new_key: true,
        expires: Some(7 * DAY),
        ..invite("ci", None)
    };
    let stage = to_standing(&cmd, None);
    let (stage, acts) = cmd
        .issue(stage, told_standing(Standing::Unpinned))
        .expect("a root is made");
    assert!(matches!(acts.as_slice(), [Act::MakeRoot]), "{acts:?}");
    let (stage, acts) = cmd
        .issue(
            stage,
            Told::Made {
                records: records(None),
            },
        )
        .expect("made");
    assert!(matches!(stage, Stage::Signing { plan: Plan::Keyed, .. }));
    assert!(
        matches!(
            acts.last(),
            Some(Act::Sign(Sign::Keyed { duration })) if *duration == 7 * DAY
        ),
        "a root just made is unlocked: {acts:?}"
    );
    let (_, acts) = cmd
        .issue(Stage::Making { ask: Ask::NewKey }, Told::Finished)
        .expect("finished");
    assert!(matches!(acts.as_slice(), [Act::OpenRoot]), "{acts:?}");
}

#[test]
fn a_root_elsewhere_is_opened_there() {
    let cmd = InviteCmd {
        root: Some("/media/root".to_owned()),
        ..invite("tv", Some(TV))
    };
    for standing in [
        Standing::Unpinned,
        Standing::InterruptedMint {
            line: "finish it".to_owned(),
        },
    ] {
        let (_, acts) = cmd
            .issue(to_standing(&cmd, Some(TV)), told_standing(standing))
            .expect("opened");
        assert!(matches!(acts.as_slice(), [Act::OpenRoot]), "{acts:?}");
    }
}

#[test]
fn every_refusal_of_an_act_ends_it() {
    let nameless = InviteCmd {
        name: None,
        ..invite("", None)
    };
    assert_eq!(
        nameless
            .issue(Stage::Start, Told::Begun { parsed: Err(KeyFault::NotAKey) })
            .expect_err("no name"),
        "name the device: swoosh invite <name> <key>"
    );
    assert_eq!(
        invite("tv", Some("laptop"))
            .issue(Stage::Start, Told::Begun { parsed: Err(KeyFault::NotAKey) })
            .expect_err("no key"),
        "laptop is not a key: to renew laptop, swoosh invite laptop"
    );
    let alice = invite("alice", None);
    assert!(
        alice
            .issue(
                Stage::AskedContacts { ask: Ask::Renew },
                Told::Contacts {
                    petnames: vec!["alice".to_owned()]
                },
            )
            .expect_err("a contact")
            .starts_with("alice is a contact")
    );
    let damaged = Standing::Damaged {
        line: "start over".to_owned(),
        trusted: None,
    };
    assert_eq!(
        invite("tv", None)
            .issue(
                Stage::AskedStanding { ask: Ask::Renew },
                told_standing(damaged)
            )
            .expect_err("damaged"),
        "start over"
    );
    assert_eq!(
        invite("tv", None)
            .issue(
                Stage::Signing {
                    plan: Plan::Renew,
                    own_duration: DEFAULT_DURATION,
                },
                Told::Signed {
                    signed: Signed::NoDevice,
                    rows: Vec::new(),
                },
            )
            .expect_err("no device"),
        no_device_line("tv")
    );
    let mut refused = records(None);
    refused.refused = Some("a revoked key is not re-admitted".to_owned());
    assert_eq!(
        invite("tv", Some(TV))
            .issue(
                Stage::Opening {
                    ask: Ask::Add(TV.to_owned())
                },
                Told::Read { records: refused },
            )
            .expect_err("refused before the passphrase"),
        "a revoked key is not re-admitted"
    );
}

/// A renewal is told to the renewed device only where it is another one and something was signed.
#[test]
fn a_renewal_of_another_device_says_how_it_takes_it() {
    let cmd = invite("laptop", None);
    let run = |signed: Signed, key: &str| {
        let (stage, _) = cmd
            .issue(
                Stage::Signing {
                    plan: Plan::Renew,
                    own_duration: DEFAULT_DURATION,
                },
                Told::Signed {
                    signed,
                    rows: vec![Row {
                        duration: 30 * DAY,
                        ..row("laptop", key, TODAY + 30 * DAY)
                    }],
                },
            )
            .expect("signed");
        let (stage, written) = cmd
            .issue(
                stage,
                Told::Committed {
                    rows: vec![
                        Row {
                            revoked_on: TODAY,
                            ..row("laptop", TV, TODAY)
                        },
                        row("laptop", key, TODAY + 30 * DAY),
                    ],
                    own: OWN.to_owned(),
                },
            )
            .expect("written");
        let (_, said) = cmd
            .issue(
                stage,
                Told::Offered {
                    invite_line: None,
                    renewed_line: Some("it takes the renewal".to_owned()),
                },
            )
            .expect("offered");
        (
            lines(&written).iter().map(|l| (*l).to_owned()).collect::<Vec<_>>(),
            lines(&said).len(),
        )
    };
    let (written, said) = run(Signed::Done, LAPTOP);
    assert_eq!(
        written,
        ["me/laptop runs 30d from now, until 2026-10-25 (the default; --expires sets 1h to 365d)."]
    );
    assert_eq!(said, 1);
    assert_eq!(run(Signed::Done, OWN).1, 0, "this machine renewed itself");
    let (written, said) = run(Signed::Unchanged { until: TODAY }, LAPTOP);
    assert_eq!(written, [needs_no_renewal("laptop", TODAY, false)]);
    assert_eq!(said, 0, "nothing was renewed");
}

#[test]
fn a_rekey_runs_the_devices_own_length() {
    let cmd = InviteCmd {
        new_key: true,
        ..invite("ci", None)
    };
    let ci = || Row {
        duration: 45 * DAY,
        ..row("ci", TV, TODAY + DAY)
    };
    let (stage, _) = cmd
        .issue(
            Stage::Opening { ask: Ask::NewKey },
            Told::Read {
                records: Records {
                    rows: vec![row("tv", OWN, TODAY), ci()],
                    ..records(Some(ci()))
                },
            },
        )
        .expect("planned");
    let (stage, acts) = cmd.issue(stage, Told::Unlocked).expect("unlocked");
    assert!(
        matches!(
            acts.as_slice(),
            [Act::Sign(Sign::Rekey { duration })] if *duration == 45 * DAY
        ),
        "{acts:?}"
    );
    let (stage, _) = cmd
        .issue(
            stage,
            Told::Signed {
                signed: Signed::Rekeyed {
                    old_invite_until: TODAY,
                },
                rows: Vec::new(),
            },
        )
        .expect("signed");
    match stage {
        Stage::Committing { issued, .. } => {
            assert_eq!(
                issued,
                Issued {
                    carries_key: true,
                    duration: 45 * DAY,
                    default: true,
                    old_invite_until: Some(TODAY),
                    unchanged: None,
                }
            );
        }
        other => panic!("it is written next: {other:?}"),
    }
}

#[test]
fn the_bare_invite_lists_what_is_due() {
    let bare = InviteCmd {
        name: None,
        ..invite("", None)
    };
    assert_eq!(
        bare.run_due(&vec!["laptop".to_owned(), "tv".to_owned()]),
        ["swoosh invite laptop", "swoosh invite tv"]
    );
    assert!(bare.run_due(&Vec::new()).is_empty());
    assert!(!bare.bind_role().publishes());
}
