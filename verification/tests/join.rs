//! Joining a root as a device, and leaving it.

use swoosh::enrol::Device;
use swoosh::join::{
    Arrival, Invite, JoinCmd, JoinPull, JoinWrite, READ_CAP, StoredKey, check_invite,
    check_standing, fields, paste_lines, sessions_end,
};
use swoosh::leave::{LeaveAct, LeaveCmd, Was, left_lines, own_name, replaced_lines};
use swoosh::span::Moment;
use swoosh::standing::{Standing, unix};

const DAY: i64 = 24 * 60 * 60;
/// 2026-09-25.
const TODAY: i64 = 1_790_294_400;

const OWN: &str = "bf01own";
const FROM: &str = "bf01from";
const ROOT: &str = "bf01root";
const OTHER: &str = "bf01other";

fn day(n: i64) -> Moment {
    Moment::from_unix(TODAY + n * DAY)
}

/// An invite `by` signed for this machine's key, good for `days`.
fn bound(by: &str, days: i64) -> Arrival {
    Arrival {
        invite: Invite {
            name: "laptop".to_owned(),
            from: FROM.to_owned(),
            root: by.to_owned(),
            standing: format!("standing by {by}"),
            carried: None,
            until: Some(day(days)),
        },
        stored: Some(StoredKey {
            node: OWN.to_owned(),
            locked: false,
        }),
        bound: true,
        disabled: false,
        terminal: true,
        now: day(0),
    }
}

fn for_me() -> Arrival {
    bound(ROOT, 90)
}

fn carrying(key: &str) -> Arrival {
    let mut at = bound(ROOT, 90);
    at.invite.name = "runner".to_owned();
    at.invite.carried = Some(key.to_owned());
    at
}

fn join() -> JoinCmd {
    JoinCmd {
        invite: None,
        switch: false,
    }
}

fn device_of(by: &str, days: i64) -> Standing {
    Standing::Device {
        pin: by.to_owned(),
        until: day(days),
    }
}

fn refusal(at: &Arrival, standing: &Standing) -> String {
    join()
        .decide(at, standing, false, false)
        .expect_err("the join is refused")
}

#[test]
fn a_secret_invite_in_argv_is_refused() {
    for text in ["invite:seed.from.name.root.badge", "invite:!!!.b.c.d.e"] {
        let cmd = JoinCmd {
            invite: Some(text.to_owned()),
            switch: false,
        };
        assert_eq!(
            cmd.read_invite(),
            Err("this invite contains a private key; pass it on stdin: swoosh join".to_owned()),
            "refused at the count"
        );
    }
    let four = JoinCmd {
        invite: Some("invite:from.name.root.badge".to_owned()),
        switch: false,
    };
    assert_eq!(
        four.read_invite(),
        Ok(Some("invite:from.name.root.badge".to_owned()))
    );
    assert_eq!(fields("invite:a.b.c"), 3);
    assert_eq!(fields(""), 1);
}

#[test]
fn join_dash_reads_the_invite_from_stdin() {
    let dash = JoinCmd {
        invite: Some("-".to_owned()),
        switch: false,
    };
    assert_eq!(dash.read_invite(), Ok(None));
    assert_eq!(join().read_invite(), Ok(None));
    assert_eq!(READ_CAP, 4096);
}

#[test]
fn bare_join_at_a_terminal_prints_the_key_and_the_invite_command() {
    assert_eq!(
        paste_lines(OWN, Some("laptop")),
        [
            "This machine's key: bf01own",
            "On the machine where your root is kept:  swoosh invite laptop bf01own",
            "Then paste the invite here:",
        ]
    );
    assert_eq!(
        paste_lines(OWN, None)[1],
        "On the machine where your root is kept:  swoosh invite <name> bf01own"
    );
}

#[test]
fn a_tampered_from_or_name_changes_no_trust() {
    let honest = join()
        .decide(&for_me(), &Standing::Unpinned, false, false)
        .expect("joined");
    let mut tampered = for_me();
    tampered.invite.from = "bf01stranger".to_owned();
    tampered.invite.name = "evil".to_owned();
    let joined = join()
        .decide(&tampered, &Standing::Unpinned, false, false)
        .expect("joined");
    assert_eq!(
        joined.ask_first.as_deref(),
        Some("bf01stranger"),
        "the hint is only who to ask"
    );
    assert_eq!(joined.root, honest.root);
    assert_eq!(joined.own, honest.own);
    assert_eq!(joined.writes_key, honest.writes_key);
    assert_eq!(joined.pin_changes, honest.pin_changes);
    assert_eq!(joined.lines, honest.lines);
}

#[test]
fn a_switch_to_a_new_root_ignores_the_old_standings_date() {
    let cmd = JoinCmd {
        invite: None,
        switch: true,
    };
    let joined = cmd
        .decide(&bound(OTHER, 90), &device_of(ROOT, 365), false, true)
        .expect("switched");
    assert!(joined.pin_changes);
    assert_eq!(joined.root, OTHER);
    assert_eq!(
        joined.lines,
        [
            "joined root root:bf01other: this machine is its device until 2026-12-24.",
            "this machine now trusts root root:bf01other (was root:bf01root).",
            "sessions this machine admitted under root root:bf01root end now, including one you reached it \
             through as a device of that root. A session through a link this machine issued stays open.",
            "Check that root:bf01other is the root: line on the machine that keeps your root; the invite \
             alone does not prove who sent it.",
        ]
    );
}

#[test]
fn a_same_root_join_keeps_the_pin() {
    let joined = join()
        .decide(&bound(ROOT, 90), &device_of(ROOT, 90), false, true)
        .expect("renewed");
    assert!(!joined.pin_changes);
    assert_eq!(joined.lines.len(), 2, "nothing is said of a root that stays");
}

#[test]
fn join_prints_the_lock_line_once() {
    let line = "this machine's key is not locked; swoosh lock locks it.";
    let first = join()
        .decide(&for_me(), &Standing::Unpinned, false, false)
        .expect("joined");
    assert_eq!(first.lines.last().map(String::as_str), Some(line));
    let second = join()
        .decide(&for_me(), &device_of(ROOT, 30), false, false)
        .expect("joined");
    assert!(!second.lines.iter().any(|l| l == line));
    let mut locked = for_me();
    locked.stored = Some(StoredKey {
        node: OWN.to_owned(),
        locked: true,
    });
    let third = join()
        .decide(&locked, &Standing::Unpinned, false, false)
        .expect("joined");
    assert!(!third.lines.iter().any(|l| l == line));
}

#[test]
fn join_says_what_it_joined_and_how_to_check_it() {
    let joined = join()
        .decide(&for_me(), &Standing::Unpinned, false, false)
        .expect("joined");
    assert_eq!(
        joined.lines[0],
        "joined root root:bf01root: this machine is its device until 2026-12-24."
    );
    assert_eq!(
        joined.lines[1],
        "Check that root:bf01root is the root: line on the machine that keeps your root; the invite alone \
         does not prove who sent it."
    );
    assert_eq!(joined.ask_first.as_deref(), Some(FROM));
}

#[test]
fn a_key_carrying_invite_becomes_this_machines_key() {
    let mut at = carrying("bf01carried");
    at.stored = None;
    let joined = join()
        .decide(&at, &Standing::Unpinned, false, false)
        .expect("joined");
    assert_eq!(joined.own, "bf01carried");
    assert!(joined.writes_key);
    match joined.writes().as_slice() {
        [
            JoinWrite::Key { own: key },
            JoinWrite::Standing {
                root,
                standing,
                own,
                name,
                from,
                pin_changes: true,
            },
        ] => {
            assert_eq!((key.as_str(), own.as_str()), ("bf01carried", "bf01carried"));
            assert_eq!((root.as_str(), name.as_str(), from.as_str()), (ROOT, "runner", FROM));
            assert_eq!(standing, &format!("standing by {ROOT}"));
        }
        other => panic!("the key, then the standing: {other:?}"),
    }
    let mut again = carrying(OWN);
    again.invite.from = OWN.to_owned();
    let joined = join()
        .decide(&again, &Standing::Unpinned, false, false)
        .expect("joined");
    assert_eq!(joined.ask_first, None, "this machine asks itself nothing");
}

#[test]
fn join_refuses_an_invite_whose_standing_has_passed() {
    let mut at = bound(ROOT, 10);
    for now in [day(10), day(11)] {
        at.now = now;
        assert_eq!(
            refusal(&at, &Standing::Unpinned),
            "this invite ended on 2026-10-05. With your root: swoosh invite laptop (for a device that starts \
             from its invite each time: swoosh invite laptop --new-key), then join what it prints."
        );
    }
}

#[test]
fn join_refuses_while_serve_admit_runs() {
    assert_eq!(
        join()
            .decide(&for_me(), &Standing::Unpinned, true, true)
            .expect_err("a serve is admitting"),
        "stop swoosh serve first."
    );
}

#[test]
fn join_refuses_a_key_carrying_invite_on_a_machine_with_a_key() {
    assert_eq!(
        refusal(&carrying("bf01carried"), &Standing::Unpinned),
        "this invite carries its own key, and this machine already has one (bf01own). Use it on a fresh \
         machine (an empty --home <dir>), or invite this machine's key: swoosh invite runner bf01own"
    );
}

#[test]
fn join_refuses_an_invite_whose_root_is_this_machines_key() {
    assert_eq!(
        refusal(&bound(OWN, 90), &Standing::Unpinned),
        "a machine cannot be its own root's device."
    );
}

#[test]
fn join_refuses_a_bound_invite_for_another_key() {
    let mut at = for_me();
    at.bound = false;
    assert_eq!(
        refusal(&at, &Standing::Unpinned),
        "this invite is for another machine's key; this machine is bf01own. Invite this machine: swoosh \
         invite laptop bf01own"
    );
}

#[test]
fn join_refuses_a_bound_invite_on_a_machine_with_no_key() {
    let mut at = for_me();
    at.stored = None;
    assert_eq!(
        refusal(&at, &Standing::Unpinned),
        "this invite is for an existing machine's key, and this machine has no key yet. Ask for an invite \
         with its key inside: swoosh invite laptop --new-key"
    );
}

#[test]
fn join_refuses_where_the_root_is_kept() {
    let line = refusal(&bound(OTHER, 90), &Standing::HoldsRoot);
    assert!(line.contains("swoosh move-root <dir>"), "{line}");
    assert!(!line.contains("--switch"), "it names only move-root");
}

#[test]
fn join_refuses_another_root_without_switch() {
    assert_eq!(
        refusal(&bound(OTHER, 90), &device_of(ROOT, 90)),
        "this machine trusts root:bf01root; this invite is from root:bf01other. To move this machine to it: \
         swoosh join --switch."
    );
}

#[test]
fn join_refuses_an_earlier_date_on_the_same_root() {
    assert_eq!(
        refusal(&bound(ROOT, 30), &device_of(ROOT, 90)),
        "this invite ends 2026-10-25, before this machine's current date 2026-12-24, so it changes nothing \
         here. To end this device sooner: with your root, swoosh revoke me/laptop; then here, swoosh leave \
         --new-key, and invite the new key."
    );
}

#[test]
fn join_refuses_a_root_revoked_here() {
    let mut at = for_me();
    at.disabled = true;
    assert_eq!(
        refusal(&at, &Standing::Unpinned),
        "root:bf01root was revoked on this machine; recovery is a new root."
    );
}

#[test]
fn join_refuses_a_locked_key_over_pipes() {
    let mut at = for_me();
    at.stored = Some(StoredKey {
        node: OWN.to_owned(),
        locked: true,
    });
    at.terminal = false;
    assert_eq!(
        check_invite(&at),
        Err(
            "this machine's key has a passphrase: run this with -t after --, and paste the invite at the \
             prompt"
                .to_owned()
        )
    );
    at.terminal = true;
    assert_eq!(check_invite(&at), Ok(OWN.to_owned()));
}

#[test]
fn join_refuses_a_damaged_home() {
    let damaged = Standing::Damaged {
        line: "the records disagree. Run swoosh leave to start over".to_owned(),
        trusted: Some(ROOT.to_owned()),
    };
    assert_eq!(
        check_standing(&damaged, true, ROOT, "laptop", day(90)),
        Err("the records disagree. Run swoosh leave to start over".to_owned())
    );
    let unfinished = Standing::InterruptedMint {
        line: "finish it".to_owned(),
    };
    assert_eq!(
        check_standing(&unfinished, true, ROOT, "laptop", day(90)),
        Err("finish it".to_owned())
    );
}

#[test]
fn join_refuses_text_that_is_not_an_invite() {
    let mut unreadable = for_me();
    unreadable.invite.until = None;
    assert_eq!(
        refusal(&unreadable, &Standing::Unpinned),
        "this is not a swoosh invite"
    );
    let mut forged = carrying(OWN);
    forged.bound = false;
    assert_eq!(
        refusal(&forged, &Standing::Unpinned),
        "this is not a swoosh invite"
    );
}

/// The invite is refused before the standing is, and the standing before a running serve.
#[test]
fn the_first_reason_is_the_one_given() {
    let mut at = bound(ROOT, 30);
    at.disabled = true;
    let line = join()
        .decide(&at, &device_of(ROOT, 90), true, true)
        .expect_err("refused");
    assert!(line.starts_with("root:bf01root was revoked"), "{line}");
    at.disabled = false;
    let line = join()
        .decide(&at, &device_of(ROOT, 90), true, true)
        .expect_err("refused");
    assert!(line.starts_with("this invite ends 2026-10-25"), "{line}");
}

fn leave(new_key: bool) -> LeaveCmd {
    LeaveCmd { new_key }
}

fn devices() -> Vec<Device> {
    ["desk", "laptop", "laptop2"]
        .iter()
        .map(|label| Device {
            label: (*label).to_owned(),
            key: if label.starts_with("laptop") {
                OWN.to_owned()
            } else {
                FROM.to_owned()
            },
            short: String::new(),
        })
        .collect()
}

#[test]
fn leave_removes_the_standing_and_the_pin_and_keeps_the_revocations() {
    let leaving = leave(false)
        .leave(&device_of(ROOT, 90), false)
        .expect("left");
    assert!(leaving.removes && !leaving.replaces_key);
    let name = own_name(&devices(), OWN);
    assert_eq!(name.as_deref(), Some("laptop"));
    assert_eq!(
        left_lines(&leaving.was, name.as_deref(), false),
        [
            "this machine no longer trusts root root:bf01root. Your root still lists it as me/laptop until \
             2026-12-24: revoke it there with swoosh revoke me/laptop."
        ]
    );
    assert_eq!(
        left_lines(&leaving.was, None, false),
        ["this machine no longer trusts root root:bf01root."]
    );
    assert_eq!(own_name(&devices(), "bf01nobody"), None);
}

#[test]
fn leave_refuses_on_a_machine_that_is_no_device() {
    assert_eq!(
        leave(false)
            .leave(&Standing::Unpinned, false)
            .expect_err("no device"),
        "this machine is not one of your devices."
    );
}

#[test]
fn leave_refuses_where_the_root_is_kept() {
    for new_key in [false, true] {
        let line = leave(new_key)
            .leave(&Standing::HoldsRoot, false)
            .expect_err("a root is kept here");
        assert!(line.contains("swoosh move-root <dir>"), "{line}");
        let unfinished = Standing::InterruptedMint {
            line: "finish it".to_owned(),
        };
        assert_eq!(
            leave(new_key)
                .leave(&unfinished, false)
                .expect_err("a root is half made"),
            "finish it"
        );
    }
}

#[test]
fn leave_on_a_damaged_home_removes_the_standing_and_the_pin_and_keeps_the_root() {
    let damaged = |trusted: Option<&str>| Standing::Damaged {
        line: "the records disagree".to_owned(),
        trusted: trusted.map(str::to_owned),
    };
    let leaving = leave(false)
        .leave(&damaged(Some(OTHER)), true)
        .expect("a damaged home can always leave");
    assert!(leaving.removes);
    assert_eq!(
        left_lines(&leaving.was, Some("laptop"), false),
        ["this machine no longer trusts root root:bf01other."]
    );
    let blank = leave(false).leave(&damaged(None), false).expect("left");
    assert!(left_lines(&blank.was, None, true).is_empty());
}

#[test]
fn leave_new_key_on_an_unpinned_home_replaces_the_key() {
    let leaving = leave(true)
        .leave(&Standing::Unpinned, false)
        .expect("replaced");
    assert!(leaving.replaces_key && !leaving.removes);
    assert!(left_lines(&leaving.was, None, false).is_empty());
    assert_eq!(
        replaced_lines(&leaving.was, Some("/h/key.replaced-2026-09-25")),
        [
            "kept the old key at /h/key.replaced-2026-09-25",
            "links this machine made under its old key stop working.",
        ]
    );
}

#[test]
fn leave_new_key_on_a_device_leaves_and_keeps_the_old_key_and_links_aside() {
    let leaving = leave(true)
        .leave(&device_of(ROOT, 90), false)
        .expect("left");
    assert!(leaving.replaces_key && leaving.removes);
    assert!(matches!(leaving.was, Was::Device { .. }));
    assert_eq!(
        replaced_lines(&leaving.was, None),
        [
            "links this machine made under its old key stop working.",
            "Give the new key to the machine that keeps your root to invite it again.",
        ]
    );
}

/// The name is read before the removal, and the key replaced after it.
#[test]
fn a_name_is_read_before_it_is_removed() {
    let acts = |new_key: bool, standing: Standing| {
        leave(new_key)
            .leave(&standing, false)
            .expect("left")
            .acts()
    };
    assert_eq!(
        acts(true, device_of(ROOT, 90)),
        [
            LeaveAct::ReadName,
            LeaveAct::Remove,
            LeaveAct::SayLeft,
            LeaveAct::ReplaceKey,
            LeaveAct::PrintKey,
            LeaveAct::SayReplaced,
        ]
    );
    assert_eq!(
        acts(false, device_of(ROOT, 90)),
        [LeaveAct::ReadName, LeaveAct::Remove, LeaveAct::SayLeft]
    );
    let damaged = Standing::Damaged {
        line: "the records disagree".to_owned(),
        trusted: None,
    };
    assert_eq!(acts(false, damaged), [LeaveAct::Remove]);
    assert_eq!(
        acts(true, Standing::Unpinned),
        [
            LeaveAct::ReplaceKey,
            LeaveAct::PrintKey,
            LeaveAct::SayReplaced
        ]
    );
}

#[test]
fn leave_new_key_refuses_while_serve_runs() {
    for standing in [device_of(ROOT, 90), Standing::Unpinned] {
        assert_eq!(
            leave(true).leave(&standing, true).expect_err("a serve runs"),
            "stop swoosh serve first."
        );
    }
}

#[test]
fn leave_under_a_running_serve_says_its_sessions_end() {
    let leaving = leave(false)
        .leave(&device_of(ROOT, 90), true)
        .expect("left");
    let lines = left_lines(&leaving.was, None, true);
    assert_eq!(lines[1], sessions_end(ROOT));
    assert!(
        lines[1].starts_with("sessions this machine admitted under root root:bf01root end now"),
        "{lines:?}"
    );
}

/// What falls before the epoch is second zero.
#[test]
fn an_instant_before_the_epoch_is_zero() {
    assert_eq!(unix(Moment::from_unix(-1)), 0);
    assert_eq!(
        unix(Moment {
            secs: 5,
            nanos: 999_999_999
        }),
        5
    );
    let pull = JoinPull {
        from: FROM.to_owned(),
    };
    assert!(!pull.bind_role().publishes());
}
