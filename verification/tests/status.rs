//! The status of a peer, and how a refused run is told.

use swoosh::span::humanize_secs;
use swoosh::speed::{MethodRefusal, refusal_line};
use swoosh::status::{Line, Outcome, Print, Probed, State, StatusCmd, causes, probe};

/// Uptimes and idle ages render as the coarsest two units, so a status reads at a glance.
#[test]
fn uptime_spans_render_coarsest_two_units() {
    assert_eq!(humanize_secs(0), "0s");
    assert_eq!(humanize_secs(45), "45s");
    assert_eq!(humanize_secs(90), "1m 30s");
    assert_eq!(humanize_secs(2 * 3600 + 14 * 60), "2h 14m");
    assert_eq!(humanize_secs(3 * 86_400 + 5 * 3600), "3d 5h");
}

fn bare() -> StatusCmd {
    StatusCmd {
        peer: None,
        key: false,
        present: None,
        transport: false,
        local: false,
        hints: false,
    }
}

#[test]
fn bare_status_rejects_present() {
    let status = StatusCmd {
        present: Some("swoosh:link".to_owned()),
        ..bare()
    };
    assert_eq!(
        status.run_local(),
        Err("--present only applies when reaching a peer; drop it or name one".to_owned())
    );
}

#[test]
fn bare_status_rejects_the_reach_flags() {
    let cases = [
        (
            StatusCmd {
                transport: true,
                ..bare()
            },
            "--transport",
        ),
        (
            StatusCmd {
                local: true,
                ..bare()
            },
            "--local",
        ),
        (
            StatusCmd {
                hints: true,
                ..bare()
            },
            "--peer",
        ),
    ];
    for (status, flag) in cases {
        assert_eq!(
            status.run_local(),
            Err(format!(
                "{flag} only applies when reaching a peer; drop it or name one"
            ))
        );
    }
}

#[test]
fn a_bare_status_reports_this_machine_or_its_key() {
    assert_eq!(bare().run_local(), Ok(Print::Report));
    let key = StatusCmd {
        key: true,
        ..bare()
    };
    assert_eq!(key.run_local(), Ok(Print::Key));
}

const REMOTE: &str = "203.0.113.9:41641";

#[test]
fn a_probe_with_nothing_back_is_never_a_healthy_line() {
    let line = probe(
        "alice/nas".to_owned(),
        "iroh".to_owned(),
        Probed::Ran {
            sent: 3,
            received: 0,
            path: format!("direct to {REMOTE}"),
            measured: None,
            estimate: Some("9.000".to_owned()),
        },
    );
    let text = line.text();

    assert!(
        text.contains("reached, but the probe went unanswered"),
        "an empty report says the node was reached and the probe was not answered: {text}"
    );
    assert!(
        !text.contains("rtt") && !text.contains("direct"),
        "the transport's own estimate is not a measurement of this probe: {text}"
    );
    assert!(
        !text.contains(REMOTE),
        "an unanswered probe renders no address: {text}"
    );
    assert_eq!(line.outcome(), Outcome::Failed);
    assert_eq!(
        text,
        "alice/nas via iroh: reached, but the probe went unanswered (3 sent, 0 back)"
    );
    assert_ne!(StatusCmd::run_status(&vec![line]), Outcome::Healthy);
}

#[test]
fn a_probe_that_failed_after_the_dial_is_never_a_healthy_line() {
    let line = probe(
        "alice/macbook".to_owned(),
        "iroh".to_owned(),
        Probed::Failed {
            causes: vec!["open a stream".to_owned(), "peer went away".to_owned()],
        },
    );
    let text = line.text();
    assert_eq!(
        text,
        "alice/macbook via iroh: reached, but the probe failed (open a stream: peer went away)"
    );
    assert_eq!(line.outcome(), Outcome::Failed);
    assert_ne!(StatusCmd::run_status(&vec![line]), Outcome::Healthy);
    assert_eq!(causes(&vec!["alone".to_owned()]), "alone");
}

#[test]
fn a_reached_but_refused_line_is_descriptive_and_not_doubled() {
    let line = Line::refused("alice/macbook".to_owned(), "iroh", "not admitted".to_owned()).text();
    assert!(
        line.contains("reached, but refused"),
        "a refusal is reached-but-refused, distinct from unreachable: {line}"
    );
    assert!(
        !line.contains("refused (refused)"),
        "the bare token is not doubled: {line}"
    );
    assert!(
        line.contains("not admitted"),
        "the uniform refusal is rendered as a reason a person can act on: {line}"
    );
}

/// A measured round trip is shown before an estimated one, and an answer without a timing shows the path.
#[test]
fn an_answered_probe_shows_its_path() {
    let ran = |measured: Option<&str>, estimate: Option<&str>| {
        let line = probe(
            "desk".to_owned(),
            "iroh".to_owned(),
            Probed::Ran {
                sent: 1,
                received: 1,
                path: "direct to 10.0.0.1:1".to_owned(),
                measured: measured.map(str::to_owned),
                estimate: estimate.map(str::to_owned),
            },
        );
        assert_eq!(line.outcome(), Outcome::Healthy);
        assert!(matches!(line.state, State::Reached { .. }));
        line.text()
    };
    assert_eq!(
        ran(Some("1.500"), Some("9.000")),
        "desk via iroh: direct to 10.0.0.1:1, rtt 1.500 ms"
    );
    assert_eq!(
        ran(None, Some("9.000")),
        "desk via iroh: direct to 10.0.0.1:1, rtt 9.000 ms"
    );
    assert_eq!(ran(None, None), "desk via iroh: direct to 10.0.0.1:1");
    assert_eq!(
        Line::unreachable("desk", "quirk").text(),
        "desk via quirk: unreachable"
    );
}

/// One device that answered makes the whole healthy, whatever the others came to.
#[test]
fn healthy_means_one_answered() {
    let refused = || {
        probe(
            "a".to_owned(),
            "iroh".to_owned(),
            Probed::Refused {
                refusal: "no".to_owned(),
            },
        )
    };
    let reached = Line {
        label: "b".to_owned(),
        transport: "iroh".to_owned(),
        state: State::Reached {
            path: "relayed".to_owned(),
            rtt: None,
        },
    };
    assert_eq!(StatusCmd::run_status(&Vec::new()), Outcome::Unreachable);
    assert_eq!(
        StatusCmd::run_status(&vec![Line::unreachable("c", "iroh"), refused()]),
        Outcome::Refused
    );
    assert_eq!(
        StatusCmd::run_status(&vec![reached, refused()]),
        Outcome::Healthy
    );
    assert_eq!(Outcome::Refused.max(Outcome::Failed), Outcome::Failed);
    assert_eq!(Outcome::Failed.max(Outcome::Refused), Outcome::Failed);
}

/// Each code renders its own line: the detail never chooses the phrase.
#[test]
fn a_method_refusal_renders_its_typed_code() {
    assert_eq!(
        refusal_line(
            "alice",
            MethodRefusal::WrongMethod,
            "this service speaks ping"
        ),
        "alice does not serve `speed`: this service speaks ping"
    );
    assert_eq!(
        refusal_line("alice", MethodRefusal::RateLimited, "over the byte cap"),
        "alice is rate limited: over the byte cap"
    );
    assert_eq!(
        refusal_line("alice", MethodRefusal::Busy, "one run at a time"),
        "alice is busy: one run at a time"
    );
}
