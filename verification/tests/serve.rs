//! Being a node: the readiness banner, the served services in their groups, the order of the work, and why
//! a node stopped.

use swoosh::reach::{
    At, Dialable, MdnsState, Reach, ReachKind, Scope, ScopeClass, Socket, Transport, reach_section,
};
use swoosh::routes::{FetchScope, extract_recv_services};
use swoosh::serve::{
    Bind, Ended, ServeCmd, Step, StopKind, Stopped, classify_stop, render_ready_banner,
    run_until_stopped,
};
use swoosh::serving::{
    Group, ManifestEntry, Metering, Posture, RawSource, TargetKind, Targets, describe,
    display_targets, handler_gloss, is_forward, serving_section,
};

/// A gated entry.
fn entry_gated(name: &str, kind: TargetKind, metering: Option<Metering>) -> ManifestEntry {
    ManifestEntry {
        name: name.to_owned(),
        posture: Posture::Gated,
        kind,
        metering,
        raw_source: None,
    }
}

/// An opened entry.
fn entry_open(name: &str, kind: TargetKind, metering: Option<Metering>) -> ManifestEntry {
    ManifestEntry {
        name: name.to_owned(),
        posture: Posture::Open,
        kind,
        metering,
        raw_source: None,
    }
}

const HEARD_AT: &str = "192.168.1.40:58131";
const NETWORK_AT: &str = "192.168.1.44:58131";
const LOOPBACK_AT: &str = "127.0.0.1:58131";

fn socket(text: &str) -> Socket {
    Socket {
        text: text.to_owned(),
        v6: text.starts_with('['),
        port: 58131,
    }
}

fn heard_on_the_network() -> MdnsState {
    MdnsState::OnLan(vec![socket(HEARD_AT)])
}

fn wildcard_bind() -> Dialable {
    Dialable::whole(vec![
        At {
            socket: socket(LOOPBACK_AT),
            scope: Scope::ThisMachine,
        },
        At {
            socket: socket(NETWORK_AT),
            scope: Scope::Network,
        },
    ])
}

fn loopback_bind() -> Dialable {
    Dialable::whole(vec![At {
        socket: socket(LOOPBACK_AT),
        scope: Scope::ThisMachine,
    }])
}

fn default_manifest() -> Vec<ManifestEntry> {
    vec![
        entry_gated(
            "control.services",
            TargetKind::Handler,
            Some(Metering::Unmetered),
        ),
        entry_gated(
            "control.stop",
            TargetKind::Handler,
            Some(Metering::Unmetered),
        ),
        entry_gated("ping", TargetKind::Handler, Some(Metering::Unmetered)),
        entry_gated("speed", TargetKind::Handler, Some(Metering::Unmetered)),
    ]
}

fn default_targets() -> Targets {
    display_targets(&vec![
        "ping=ping:".to_owned(),
        "speed=speed:".to_owned(),
        "control.stop=control.stop:".to_owned(),
        "control.services=control.services:".to_owned(),
    ])
    .expect("explicit entries display")
}

fn plain() -> ServeCmd {
    ServeCmd {
        services: Vec::new(),
        public: Vec::new(),
        public_unsafe: Vec::new(),
        quiet: false,
        expires: None,
        resident: false,
        transport: Transport::Iroh,
        local: false,
    }
}

#[test]
fn the_default_banner_tells_reach_and_posture_without_backend_jargon() {
    let banner = render_ready_banner(
        "bf01exampleid",
        ReachKind::Internet,
        &heard_on_the_network(),
        &Reach::default(),
        &wildcard_bind(),
        &default_manifest(),
        &default_targets(),
        &Vec::new(),
        "ctrl-c to stop",
        None,
    );

    assert!(
        banner.starts_with("swoosh ready\n\n    bf01exampleid\n\n"),
        "{banner}"
    );
    assert!(banner.contains("how peers reach you"), "{banner}");
    assert!(
        banner.contains("internet"),
        "an iroh node shows the internet channel: {banner}"
    );
    assert!(
        !banner.contains("iroh"),
        "the backend is never named: {banner}"
    );
    assert_eq!(banner.matches("automatic").count(), 2, "{banner}");
    assert!(
        banner.contains("(mDNS)"),
        "the local line is an mDNS tell: {banner}"
    );
    assert!(!banner.contains("LAN"), "no surface says LAN: {banner}");
    assert!(banner.contains("family-gated"), "{banner}");
    assert!(
        banner.contains("control.*")
            && !banner.contains("control.stop")
            && !banner.contains("control.services"),
        "the two control reads fold to one control.* line: {banner}"
    );
    let (reach, serving) = banner
        .split_once("serving\n")
        .expect("the banner has a serving section");
    assert!(
        !serving.contains("anyone"),
        "no group is opened to anyone when nothing is public: {banner}"
    );
    assert!(
        reach.contains("records"),
        "a default internet bind discloses that it publishes its addresses: {banner}"
    );
    assert!(banner.trim_end().ends_with("ctrl-c to stop"), "{banner}");
}

/// The whole default banner, character by character.
#[test]
fn the_default_banner_reads_exactly() {
    let banner = render_ready_banner(
        "bf01exampleid",
        ReachKind::Internet,
        &heard_on_the_network(),
        &Reach::default(),
        &wildcard_bind(),
        &default_manifest(),
        &default_targets(),
        &Vec::new(),
        "ctrl-c to stop",
        None,
    );
    let expected = concat_lines(&[
        "swoosh ready",
        "",
        "    bf01exampleid",
        "",
        "how peers reach you",
        "  internet   automatic; peers reach you by the key above, even across NATs",
        "  records    n0's public discovery: your addresses, for anyone with your key",
        "  local      automatic; your devices just need the key (mDNS), announced at:",
        "             192.168.1.40:58131",
        "",
        "serving",
        "  family-gated   your devices + peers you've granted",
        "    ping        round-trip probe",
        "    speed       throughput test",
        "    control.*   node control (never public)",
        "",
        "ctrl-c to stop",
    ]);
    assert_eq!(banner, expected);
}

fn concat_lines(lines: &[&str]) -> String {
    let mut out = String::new();
    for line in lines {
        out.push_str(line);
        out.push('\n');
    }
    out
}

#[test]
fn the_mix_banner_keeps_one_monotonic_danger_vocabulary() {
    let manifest = vec![
        entry_open("logs", TargetKind::RawStream, None),
        entry_gated("ping", TargetKind::Handler, Some(Metering::Unmetered)),
        entry_open("speed", TargetKind::Handler, Some(Metering::Unmetered)),
        entry_gated("ssh", TargetKind::Handler, None),
    ];
    let targets = display_targets(&vec![
        "ping=ping:".to_owned(),
        "speed=speed:".to_owned(),
        "ssh=sshd:".to_owned(),
        "logs=file:/var/log/app.log".to_owned(),
    ])
    .expect("explicit entries display");
    let section = serving_section(&manifest, &targets, &Vec::new());

    assert!(section.contains("ssh -> sshd"), "{section}");
    assert!(
        section.contains("logs -> file:/var/log/app.log"),
        "{section}"
    );
    assert!(
        section.contains("\n    speed ") || section.contains("\n    speed\n"),
        "a name that equals its scheme renders without an arrow: {section}"
    );
    assert!(
        section.contains("unmetered: a stranger can drain your uplink"),
        "{section}"
    );
    assert!(
        !section.contains("[!]"),
        "the unmetered caveat is not a loud glyph: {section}"
    );

    let family = section.find("family-gated").expect("family group present");
    let public = section.find("public !").expect("public group present");
    let unsafe_grp = section
        .find("public-UNSAFE !!")
        .expect("public-UNSAFE group present");
    assert!(
        family < public && public < unsafe_grp,
        "safest-first ordering: {section}"
    );
    assert_eq!(
        section,
        concat_lines(&[
            "serving",
            "  family-gated   your devices + peers you've granted",
            "    ping          round-trip probe",
            "    ssh -> sshd   a shell on this machine",
            "  public !   anyone, unauthenticated",
            "    speed   throughput test   unmetered: a stranger can drain your uplink",
            "  public-UNSAFE !!   raw bytes to anyone who connects",
            "    logs -> file:/var/log/app.log   streams raw bytes to any caller, no auth",
        ])
    );
}

/// The gloss column is measured in bytes and filled in characters, so a row in wider characters stands
/// further out.
#[test]
fn a_wide_label_widens_its_column_by_its_bytes() {
    let manifest = vec![
        entry_gated("a", TargetKind::RawStream, None),
        entry_gated("b", TargetKind::RawStream, None),
    ];
    let targets = display_targets(&vec!["a=file:é".to_owned(), "b=file:e".to_owned()])
        .expect("explicit entries display");
    let section = serving_section(&manifest, &targets, &Vec::new());
    assert_eq!(
        section,
        concat_lines(&[
            "serving",
            "  family-gated   your devices + peers you've granted",
            "    a -> file:é    streams raw bytes to any caller, no auth",
            "    b -> file:e    streams raw bytes to any caller, no auth",
        ])
    );
}

#[test]
fn the_unmetered_caveat_derives_from_the_bound_metering() {
    let targets =
        display_targets(&vec!["speed=speed:".to_owned()]).expect("explicit entries display");
    let metered = vec![entry_open(
        "speed",
        TargetKind::Handler,
        Some(Metering::Metered),
    )];
    let section = serving_section(&metered, &targets, &Vec::new());
    assert!(
        !section.contains("unmetered"),
        "the engine is metered by construction, so an open route carries no caveat: {section}"
    );

    let unmetered = vec![entry_open(
        "speed",
        TargetKind::Handler,
        Some(Metering::Unmetered),
    )];
    let section = serving_section(&unmetered, &targets, &Vec::new());
    assert!(
        section.contains("unmetered: a stranger can drain your uplink"),
        "an open unmetered route narrates the caveat: {section}"
    );
}

#[test]
fn a_disabled_discovery_says_so_plainly() {
    for reach in [ReachKind::Internet, ReachKind::DirectOnly] {
        let banner = render_ready_banner(
            "bf01exampleid",
            reach,
            &MdnsState::Blocked,
            &Reach::default(),
            &loopback_bind(),
            &default_manifest(),
            &default_targets(),
            &Vec::new(),
            "ctrl-c to stop",
            None,
        );
        assert!(
            banner.contains("off; mDNS unavailable here"),
            "a disabled discovery renders the off-state for {reach:?}: {banner}"
        );
        assert!(
            !banner.contains("automatic; local mDNS")
                && !banner.contains("automatic; your devices just need the key (mDNS)"),
            "a disabled discovery never claims the live mDNS glosses: {banner}"
        );
    }

    let blocked = reach_section(
        ReachKind::DirectOnly,
        &MdnsState::Blocked,
        &Reach::default(),
        &loopback_bind(),
    );
    assert!(
        blocked.contains("hand a peer the address below"),
        "the down-state points at the lane that always renders: {blocked}"
    );
    assert!(
        blocked.contains(&format!("{LOOPBACK_AT}  (this machine)")),
        "and the lane below it carries that address, scope-marked: {blocked}"
    );
    assert!(
        !blocked.contains("a peer needs a direct address hint"),
        "nobody is asked for a hint: {blocked}"
    );
}

#[test]
fn a_fetch_service_glosses_by_name_and_never_leaks_its_scope() {
    let entry = entry_gated("news", TargetKind::Handler, None);
    let fetch_names = vec!["news".to_owned()];
    let (label, gloss) = describe(&entry, &Targets::new(), &fetch_names);
    assert_eq!(label, "news", "no synthetic scheme in the label");
    assert!(gloss.contains("fetches"), "{gloss}");
    assert!(
        !label.contains("fetch_"),
        "the synthetic scheme never appears: {label}"
    );
}

/// Each kind of target has its own label and gloss.
#[test]
fn every_target_is_described() {
    let targets = display_targets(&vec![
        "e=echo:".to_owned(),
        "web=tcp:127.0.0.1:8080".to_owned(),
        "sock=unix:/run/x".to_owned(),
        "ping=ping:".to_owned(),
        "shell=sshd:".to_owned(),
        "in=recv:".to_owned(),
        "odd=thing:".to_owned(),
    ])
    .expect("explicit entries display");
    let said = |name: &str| {
        describe(
            &entry_gated(name, TargetKind::Handler, None),
            &targets,
            &Vec::new(),
        )
    };
    let pair = |a: &str, b: &str| (a.to_owned(), b.to_owned());
    assert_eq!(said("e"), pair("e", "echoes your bytes back to you"));
    assert_eq!(
        said("web"),
        pair("web -> tcp:127.0.0.1:8080", "local TCP service")
    );
    assert_eq!(
        said("sock"),
        pair("sock -> unix:/run/x", "local TCP service")
    );
    assert_eq!(said("ping"), pair("ping", "round-trip probe"));
    assert_eq!(
        said("shell"),
        pair("shell -> sshd", "a shell on this machine")
    );
    assert_eq!(said("in"), pair("in -> recv", "receives pushed files"));
    assert_eq!(said("odd"), pair("odd -> thing", "thing service"));
    assert_eq!(
        said("absent"),
        pair("absent -> ", " service"),
        "a name with no target still renders a line"
    );
}

/// An open raw stream names the bytes at risk; a gated one stays quiet.
#[test]
fn an_open_raw_stream_names_what_it_serves() {
    let targets = display_targets(&vec!["logs=file:~/app.log".to_owned()])
        .expect("explicit entries display");
    let raw = |posture: Posture, raw_source: Option<RawSource>| {
        describe(
            &ManifestEntry {
                name: "logs".to_owned(),
                posture,
                kind: TargetKind::RawStream,
                metering: None,
                raw_source,
            },
            &targets,
            &Vec::new(),
        )
    };
    let path = || Some(RawSource::Path("/home/me/app.log".to_owned()));
    assert_eq!(
        raw(Posture::Open, path()).1,
        "serving the raw bytes of /home/me/app.log to anyone, no auth"
    );
    assert_eq!(
        raw(Posture::Open, Some(RawSource::Stdin)).1,
        "serving this process's piped stdin to anyone, no auth"
    );
    for quiet in [raw(Posture::Open, None), raw(Posture::Gated, path())] {
        assert_eq!(quiet.0, "logs -> file:~/app.log");
        assert_eq!(quiet.1, "streams raw bytes to any caller, no auth");
    }
}

/// An open raw stream sorts into the loudest group, and opening never quiets a route.
#[test]
fn opening_a_route_moves_it_to_a_louder_group() {
    let handler = TargetKind::Handler;
    let raw = TargetKind::RawStream;
    assert_eq!(Group::of(&entry_gated("a", handler, None)), Group::FamilyGated);
    assert_eq!(Group::of(&entry_gated("a", raw, None)), Group::FamilyGated);
    assert_eq!(Group::of(&entry_open("a", handler, None)), Group::Public);
    assert_eq!(Group::of(&entry_open("a", raw, None)), Group::PublicUnsafe);
    assert_eq!(
        Group::PublicUnsafe.header(),
        ("public-UNSAFE !!", "raw bytes to anyone who connects")
    );
}

/// A bare entry is refused with the grammar, and a later entry wins its name.
#[test]
fn display_targets_takes_named_entries_only() {
    let error = display_targets(&vec!["ping=ping:".to_owned(), "speed:".to_owned()])
        .expect_err("a bare entry is refused");
    assert_eq!(
        error,
        "`speed:` names no service. Every serve entry must be `name=target`, e.g. `ping=ping:`, \
         `web=tcp:127.0.0.1:8080`"
    );
    let targets = display_targets(&vec![
        "a=one:".to_owned(),
        "b=x=y".to_owned(),
        "a=two:".to_owned(),
    ])
    .expect("named entries display");
    assert_eq!(targets.get("a"), "two:");
    assert_eq!(targets.get("b"), "x=y");
    assert_eq!(targets.get("c"), "");
}

/// A receive service is shown under its scheme and never its directory.
#[test]
fn receive_services_are_shown_under_their_scheme() {
    let shown = ServeCmd::shown_targets(
        &vec!["ping=ping:".to_owned()],
        &vec!["in".to_owned()],
    )
    .expect("named entries display");
    assert_eq!(shown.get("in"), "recv:");
    assert_eq!(shown.get("ping"), "ping:");
}

#[test]
fn forwards_are_told_by_their_scheme() {
    assert!(is_forward("tcp:127.0.0.1:80"));
    assert!(is_forward("unix:/run/x"));
    assert!(!is_forward("tcpx:1"));
    assert!(!is_forward("ping:"));
    assert!(!is_forward("tcp"));
    assert_eq!(handler_gloss("recv"), "receives pushed files");
}

#[test]
fn each_graceful_stop_reason_has_a_distinct_legible_message() {
    let requested = Stopped::Requested.message();
    let interrupted = Stopped::Interrupted.message();
    let local = Stopped::Local.message();

    assert!(
        requested.contains("gracefully"),
        "an owner-requested stop reads as a graceful success: {requested:?}"
    );
    assert!(
        interrupted.contains("interrupted"),
        "a Ctrl-C reads as an interrupt: {interrupted:?}"
    );
    assert!(
        local.contains("local"),
        "a socket stop reads as a local stop: {local:?}"
    );
    assert_ne!(
        requested, interrupted,
        "the two graceful reasons print distinct lines, so a log tells them apart"
    );
    assert_ne!(requested, local, "the socket stop prints its own line");
    assert_ne!(
        interrupted, local,
        "the interrupt and the socket stop are the pair a log reader most often must tell apart"
    );
}

#[test]
fn stopped_has_an_arm_only_for_graceful_reasons() {
    for reason in [Stopped::Requested, Stopped::Interrupted, Stopped::Local] {
        let (Stopped::Requested | Stopped::Interrupted | Stopped::Local) = reason;
    }
}

#[test]
fn resident_stop_classifies_from_its_source() {
    assert_eq!(
        classify_stop(Some(StopKind::Socket)),
        Stopped::Local,
        "the socket stop renders as the local stop"
    );
    for source in [None, Some(StopKind::Wire), Some(StopKind::Expires)] {
        assert_eq!(
            classify_stop(source),
            Stopped::Requested,
            "a wire or expires stop renders as requested: {source:?}"
        );
    }
    assert_eq!(
        classify_stop(Some(StopKind::Interrupted)),
        Stopped::Interrupted,
        "a recorded interrupt renders as interrupted"
    );
}

/// A stop is told from what was recorded, not from what noticed it; a failure is no stop.
#[test]
fn an_end_is_told_from_its_source() {
    for ended in [
        Ended::Exposer { ok: true },
        Ended::Control { ok: true },
        Ended::Interrupt { ok: true },
    ] {
        let teardown =
            run_until_stopped(Some(Some(StopKind::Socket)), ended).expect("a graceful end");
        assert_eq!(teardown.stopped, Stopped::Local);
        assert!(teardown.release);
    }
    let interrupt = run_until_stopped(Some(None), Ended::Interrupt { ok: true }).expect("an end");
    assert!(interrupt.note_interrupt && interrupt.cancel);
    assert_eq!(interrupt.stopped, Stopped::Interrupted);
    let plain = run_until_stopped(None, Ended::Exposer { ok: true }).expect("an end");
    assert_eq!(plain.stopped, Stopped::Requested);
    assert!(!plain.release && !plain.cancel);
    let ctrl_c = run_until_stopped(None, Ended::Interrupt { ok: true }).expect("an end");
    assert_eq!(ctrl_c.stopped, Stopped::Interrupted);
    assert!(run_until_stopped(None, Ended::Exposer { ok: false }).is_none());
    assert!(run_until_stopped(Some(None), Ended::Interrupt { ok: false }).is_none());
}

#[test]
fn resident_banner_differs_only_by_the_control_line() {
    let socket = "/run/swoosh/x/control.sock";
    let plain_cmd = plain();
    assert_eq!(
        plain_cmd.control_line(Some(socket)),
        None,
        "a plain serve prints no control line"
    );
    let resident_cmd = ServeCmd {
        resident: true,
        ..plain()
    };
    let control = resident_cmd
        .control_line(Some(socket))
        .expect("a resident serve prints the control line");
    assert_eq!(
        control, "control /run/swoosh/x/control.sock (local, this user)",
        "the control line names the real path and its local-only scope"
    );
    assert_eq!(
        control.matches(socket).count(),
        1,
        "the socket path appears exactly once in the line: {control}"
    );

    let plain = render_ready_banner(
        "bf01exampleid",
        ReachKind::Internet,
        &heard_on_the_network(),
        &Reach::default(),
        &wildcard_bind(),
        &default_manifest(),
        &default_targets(),
        &Vec::new(),
        "ctrl-c to stop",
        None,
    );
    let resident = render_ready_banner(
        "bf01exampleid",
        ReachKind::Internet,
        &heard_on_the_network(),
        &Reach::default(),
        &wildcard_bind(),
        &default_manifest(),
        &default_targets(),
        &Vec::new(),
        "ctrl-c to stop",
        Some(control.as_str()),
    );
    assert_eq!(
        resident.matches(&control).count(),
        1,
        "the control line appears exactly once in the banner: {resident}"
    );
    assert_eq!(
        resident.matches(socket).count(),
        1,
        "the real socket path appears exactly once in the banner: {resident}"
    );
    let stripped = resident.replacen(&format!("{control}\n"), "", 1);
    assert_eq!(
        stripped, plain,
        "the resident banner is the plain banner plus exactly one control line"
    );
    assert!(
        resident.contains("(local, this user)"),
        "the control line names its local-only scope: {resident}"
    );
}

/// A bare serve publishes ping and speed; a named one publishes what it names.
#[test]
fn a_bare_serve_publishes_ping_and_speed() {
    assert_eq!(plain().requested(), ["ping=ping:", "speed=speed:"]);
    let named = ServeCmd {
        services: vec!["ssh=sshd:".to_owned()],
        ..plain()
    };
    assert_eq!(named.requested(), ["ssh=sshd:"]);
    assert_eq!(plain().reach_kind(), ReachKind::Internet);
}

#[test]
fn the_stop_line_tells_the_end() {
    assert_eq!(plain().stop_line(), "ctrl-c to stop");
    let bounded = ServeCmd {
        expires: Some(5400),
        ..plain()
    };
    assert_eq!(
        bounded.stop_line(),
        "runs for 1h 30m, then stops (or ctrl-c)"
    );
    let lost = ServeCmd {
        resident: true,
        ..plain()
    };
    assert_eq!(
        lost.control_line(None).expect("a resident line"),
        "control <socket> (local, this user)"
    );
}

/// Nothing is announced before it is proven, and what was not asked for is absent.
#[test]
fn a_serve_proves_before_it_announces() {
    let place = |steps: &Vec<Step>, step: Step| steps.iter().position(|s| *s == step);
    let loud = ServeCmd {
        resident: true,
        expires: Some(60),
        ..plain()
    }
    .steps();
    let proven = place(&loud, Step::ProveTransport).expect("every serve proves");
    for after in [
        Step::AcquireResident,
        Step::PrintBanner,
        Step::StartTimer,
        Step::Run,
    ] {
        assert!(proven < place(&loud, after).expect("asked for"), "{after:?}");
    }
    let quiet = ServeCmd {
        quiet: true,
        ..plain()
    }
    .steps();
    for absent in [
        Step::StartActivity,
        Step::AcquireResident,
        Step::PrintBanner,
        Step::StartTimer,
    ] {
        assert_eq!(place(&quiet, absent), None, "{absent:?}");
    }
}

/// A resident serve reports the address its banner leads with.
#[test]
fn a_resident_serve_reports_the_leading_address() {
    let resident = ServeCmd {
        resident: true,
        ..plain()
    };
    let bind = wildcard_bind();
    assert_eq!(
        resident.status_addr(&bind).map(|s| s.text.as_str()),
        Some(NETWORK_AT)
    );
    assert!(plain().status_addr(&bind).is_none());
    assert!(
        resident
            .status_addr(&Dialable::whole(Vec::new()))
            .is_none()
    );
    assert_eq!(bind.all()[1].scope.class(), ScopeClass::ThisMachine);
}

/// An open raw stream is the loudest row, and its gloss names the bytes at risk.
#[test]
fn public_unsafe_reaches_the_public_unsafe_banner_tier() {
    let path = "/tmp/swoosh-public-unsafe-banner";
    let mut logs = entry_open("logs", TargetKind::RawStream, None);
    logs.raw_source = Some(RawSource::Path(path.to_owned()));
    assert_eq!(
        Group::of(&logs),
        Group::PublicUnsafe,
        "an open raw stream sorts into the loudest group"
    );
    let banner = render_ready_banner(
        "bf01exampleid",
        ReachKind::Internet,
        &heard_on_the_network(),
        &Reach::default(),
        &wildcard_bind(),
        &vec![logs],
        &display_targets(&vec![format!("logs=file:{path}")]).expect("explicit entries display"),
        &Vec::new(),
        "ctrl-c to stop",
        None,
    );
    assert!(
        banner.contains("public-UNSAFE !!"),
        "the loud tier header is printed: {banner}"
    );
    assert!(
        banner.contains(&format!("serving the raw bytes of {path} to anyone, no auth")),
        "the gloss names the bytes at risk: {banner}"
    );
}

/// Each service that was taken out is bound once, with what is its own; what is left is bound as it was
/// typed, and the node's own routes whatever was asked for.
#[test]
fn each_step_binds_its_own_routes() {
    let cmd = ServeCmd {
        services: ["ping=ping:", "a=fetch:https://a.example/", "in=recv:/x", "speed=speed:", "r=fetch:"]
            .iter()
            .map(|s| (*s).to_owned())
            .collect(),
        public: vec!["ping".to_owned()],
        ..plain()
    };
    let mut requested = cmd.requested();
    let fetch = FetchScope::extract(&mut requested).expect("the fetches are taken out");
    let receive = extract_recv_services(&mut requested).expect("the receivers are taken out");
    let bound: Vec<Vec<Bind>> = [
        Step::BindEntries,
        Step::BindRoster,
        Step::BindFetch,
        Step::BindReceive,
        Step::BindStop,
        Step::BindCatalog,
        Step::Expose,
    ]
    .into_iter()
    .map(|step| cmd.binds(step, &requested, &fetch, &receive))
    .collect();
    assert!(
        matches!(
            bound[0].as_slice(),
            [Bind::Entry { entry: a, open: true }, Bind::Entry { entry: b, open: false }]
                if a == "ping=ping:" && b == "speed=speed:"
        ),
        "{bound:?}"
    );
    assert!(
        matches!(
            bound[2].as_slice(),
            [Bind::Fetch { name: a, origin: Some(url) }, Bind::Fetch { name: r, origin: None }]
                if a == "a" && url == "https://a.example/" && r == "r"
        ),
        "{bound:?}"
    );
    assert!(
        matches!(
            bound[3].as_slice(),
            [Bind::Receive { name, out }] if name == "in" && out == "/x"
        ),
        "{bound:?}"
    );
    for (i, route) in [(1, "roster"), (4, "control.stop"), (5, "control.services")] {
        assert!(
            matches!(bound[i].as_slice(), [Bind::Member { name }] if name == route),
            "{bound:?}"
        );
    }
    assert!(bound[6].is_empty());
}

/// A bare serve offers nothing that costs a peer more than bandwidth: the two diagnostics and the node's own
/// two control routes.
#[test]
fn a_bare_serve_binds_exactly_ping_speed_and_the_two_control_routes() {
    let cmd = plain();
    let mut requested = cmd.requested();
    let fetch = FetchScope::extract(&mut requested).expect("a bare serve fetches nothing");
    let receive = extract_recv_services(&mut requested).expect("a bare serve receives nothing");
    let mut bound: Vec<String> = [
        Step::BindEntries,
        Step::BindFetch,
        Step::BindReceive,
        Step::BindStop,
        Step::BindCatalog,
    ]
    .into_iter()
    .flat_map(|step| cmd.binds(step, &requested, &fetch, &receive))
    .map(|bind| match bind {
        Bind::Entry { entry, open } => {
            assert!(!open, "a bare serve opens nothing: {entry}");
            entry.split('=').next().unwrap_or_default().to_owned()
        }
        Bind::Fetch { name, .. } | Bind::Receive { name, .. } | Bind::Member { name } => name,
    })
    .collect();
    bound.sort();
    assert_eq!(bound, ["control.services", "control.stop", "ping", "speed"]);
}
