//! This machine's key: its report, its backup and its restore.

use swoosh::badge::Expiry;
use swoosh::identity::{
    Existing, ExportCmd, IdentityCmd, Method, ProtectCmd, Protected, RestoreCmd, existing, render,
    scope_line,
};
use swoosh::span::Span;

const DAY: u64 = 24 * 60 * 60;
const NODE: &str = "bf01node";
const SIGNET: &str = "bf01signet";

#[test]
fn an_adopted_device_reports_its_signet_and_its_badge_life() {
    let out = render(
        NODE,
        "/home/me/.config/swoosh/identity.key",
        Method::Passphrase,
        Some(SIGNET),
        Some(Expiry::Live {
            left: Span::from_secs(34 * DAY),
        }),
    );
    assert_eq!(
        out,
        format!(
            "{NODE}\nkey: /home/me/.config/swoosh/identity.key\nprotection: passphrase\nsignet: \
             {SIGNET}\nbadge: expires in 34d\n"
        )
    );
}

#[test]
fn a_dead_badge_says_so_and_says_when() {
    let out = render(
        NODE,
        "/k",
        Method::Plain,
        Some(SIGNET),
        Some(Expiry::Expired {
            ago: Span::from_secs(6 * DAY),
        }),
    );
    assert!(
        out.contains("badge: expired 6d ago\n"),
        "an expired badge names how long it has been dead, got:\n{out}"
    );
}

#[test]
fn a_machine_with_no_root_says_so_and_prints_no_badge() {
    let out = render(NODE, "/k", Method::Plain, None, None);
    assert!(
        out.contains("signet: none\n"),
        "the absent pin is stated, got:\n{out}"
    );
    assert!(
        !out.contains("badge:"),
        "there is no badge to describe, got:\n{out}"
    );
}

#[test]
fn an_unreadable_expiry_renders_as_unknown() {
    let out = render(
        NODE,
        "/k",
        Method::Plain,
        Some(SIGNET),
        Some(Expiry::Unknown),
    );
    assert!(
        out.contains("badge: expiry unknown"),
        "an unreadable expiry is reported, not hidden, got:\n{out}"
    );
}

#[test]
fn the_scope_line_warns_when_revocations_are_missing() {
    assert!(scope_line(false).contains("grants you revoked work again"));
    assert!(!scope_line(true).contains("revoked work again"));
}

#[test]
fn a_backup_says_where_it_went_and_how_it_comes_back() {
    let export = ExportCmd {
        path: "/b".to_owned(),
        force: false,
    };
    assert_eq!(
        export.lines(),
        [
            "exported to /b",
            "restore with `swoosh identity restore /b`"
        ]
    );
    assert_eq!(export.existing(), Existing::Refuse);
    assert_eq!(existing(true), Existing::Replace);
    assert!(!IdentityCmd::Export(export).replaces());
}

/// The mode of a loose backup is shown in four octal digits at least.
#[test]
fn a_restore_says_what_did_not_come_back() {
    let restore = RestoreCmd {
        path: "/b".to_owned(),
        force: true,
    };
    let note = |mode: u32| {
        restore
            .loose_note(mode)
            .split_once("(mode ")
            .and_then(|(_, rest)| rest.split_once(')'))
            .map(|(shown, _)| shown.to_owned())
            .expect("the note names the mode")
    };
    for mode in [0o644, 0o7, 0, 0o7777, 0o100_644] {
        assert_eq!(note(mode), format!("{mode:04o}"));
    }
    assert_eq!(
        restore.loose_note(0o644),
        "note: /b is readable by others (mode 0644); it is sealed, so its passphrase is what protects it"
    );
    assert_eq!(
        restore.lines(NODE, true),
        [
            "restored bf01node",
            "only the key came back; this home's revocations and trust are unchanged"
        ]
    );
    assert_eq!(restore.existing(), Existing::Replace);
    assert!(IdentityCmd::Restore(restore).replaces());
}

#[test]
fn protecting_names_a_key_it_made() {
    let protect = ProtectCmd {
        method: Method::Passphrase,
    };
    assert_eq!(
        protect.lines(&Protected::Created(NODE.to_owned())),
        ["bf01node", "protection: passphrase"]
    );
    assert_eq!(
        protect.lines(&Protected::Rewritten),
        ["protection: passphrase"]
    );
    assert_eq!(
        ProtectCmd {
            method: Method::Plain
        }
        .lines(&Protected::Unchanged),
        ["protection: plain"]
    );
    assert!(IdentityCmd::Protect(protect).replaces());
}
