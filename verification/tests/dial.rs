//! What a command dials with, and what a serve takes out of its entries.

use swoosh::badge::Expiry;
use swoosh::connect::{ForwardCmd, ReachCmd, To};
use swoosh::dial::{BindRole, Credential, Identity, Slip, redundant_present};
use swoosh::fetch::FetchCmd;
use swoosh::fleet::FleetCmd;
use swoosh::reach::Transport;
use swoosh::routes::{FetchScope, extract_recv_services};
use swoosh::send::{Entry, Kind, SendCmd, Walk, path_context};
use swoosh::serve::ServeCmd;
use swoosh::span::Moment;
use swoosh::status::StatusCmd;

fn slip(anyone: bool) -> Slip {
    Slip {
        text: "swoosh:typed".to_owned(),
        anyone,
    }
}

fn fetch(present: Option<&str>) -> FetchCmd {
    FetchCmd {
        url: "http://example.com/x".to_owned(),
        via: "bf01exit".to_owned(),
        service: "fetch".to_owned(),
        present: present.map(str::to_owned),
        port: None,
    }
}

#[test]
fn fetch_is_family_gated_by_default_so_it_presents_a_badge() {
    let role = fetch(None).bind_role(None);
    assert!(
        matches!(
            role,
            BindRole::Dialing(Credential::Family { present: None })
        ),
        "fetch with no --present dials presenting the member badge"
    );
    assert_eq!(
        role.identity(),
        Identity::PersistedIfPresent,
        "a Family credential fuses the identity to PersistedIfPresent so the self-badge roots"
    );
}

/// The link a role presents.
fn presents(role: &BindRole) -> Option<&str> {
    match role {
        BindRole::Dialing(Credential::Family { present }) => present.as_deref(),
        BindRole::Dialing(Credential::Bearer { link }) => Some(link),
        BindRole::Serving => None,
    }
}

#[test]
fn a_link_typed_as_the_peer_is_what_is_presented() {
    let typed = slip(false);
    assert_eq!(
        presents(&fetch(Some("swoosh:beside")).bind_role(None)),
        Some("swoosh:beside")
    );
    assert_eq!(
        presents(&fetch(Some("swoosh:beside")).bind_role(Some(&typed))),
        Some("swoosh:typed")
    );
    assert!(redundant_present(
        Some(&typed),
        &Some("swoosh:beside".to_owned())
    ));
    assert!(!redundant_present(Some(&typed), &None));
    assert!(!redundant_present(None, &Some("swoosh:beside".to_owned())));
}

fn reach() -> ReachCmd {
    ReachCmd {
        peer: "swoosh:typed".to_owned(),
        service: "ssh".to_owned(),
        to: To::Stdout,
        present: None,
    }
}

#[test]
fn a_bearer_link_dial_binds_a_throwaway_key() {
    let role = reach().bind_role(Some(&slip(true)));
    assert_eq!(role.identity(), Identity::Throwaway);
    assert!(matches!(
        role,
        BindRole::Dialing(Credential::Bearer { ref link }) if link == "swoosh:typed"
    ));
}

#[test]
fn a_bound_link_dial_binds_the_home_key() {
    let role = reach().bind_role(Some(&slip(false)));
    assert_eq!(role.identity(), Identity::PersistedIfPresent);
}

#[test]
fn every_dialing_command_dials_and_only_a_serve_publishes() {
    let anyone = slip(true);
    let own = Some(&anyone);
    let status = StatusCmd {
        peer: Some("swoosh:typed".to_owned()),
        key: false,
        present: None,
        transport: false,
        local: false,
        hints: false,
    };
    assert_eq!(status.bind_role(own).identity(), Identity::Throwaway);
    let family = [
        fetch(None).bind_role(own),
        FleetCmd {
            pull: "coord".to_owned(),
            present: None,
        }
        .bind_role(own),
        SendCmd {
            paths: vec!["a".to_owned()],
            peer: "desk".to_owned(),
            service: "recv".to_owned(),
            present: None,
        }
        .bind_role(own),
        ForwardCmd {
            peer: "desk".to_owned(),
            to: To::Port(8080),
            service: "default".to_owned(),
            present: None,
        }
        .bind_role(own),
    ];
    for role in family {
        assert_eq!(role.identity(), Identity::PersistedIfPresent);
        assert_eq!(presents(&role), Some("swoosh:typed"));
        assert!(!role.publishes());
    }
    let serve = ServeCmd {
        services: Vec::new(),
        public: Vec::new(),
        public_unsafe: Vec::new(),
        quiet: false,
        expires: None,
        resident: false,
        transport: Transport::Iroh,
        local: false,
    };
    assert!(serve.bind_role().publishes());
    assert_eq!(serve.bind_role().identity(), Identity::Persisted);
}

#[test]
fn a_reach_drives_its_sink() {
    assert_eq!(reach().run("desk"), Ok(None));
    let forward = ForwardCmd {
        peer: "desk".to_owned(),
        to: To::Port(8080),
        service: "web".to_owned(),
        present: None,
    };
    assert_eq!(
        forward.run("desk"),
        Ok(Some("forwarding 127.0.0.1:8080 to desk (web)".to_owned()))
    );
}

#[test]
fn a_badge_that_cannot_be_read_stays_an_error() {
    let now = Moment::from_unix(1_788_400_000);
    assert_eq!(Expiry::read(Ok(None), now), Ok(Expiry::Unknown));
    assert_eq!(
        Expiry::read(Err("datalog".to_owned()), now),
        Err("datalog".to_owned())
    );
}

fn entries(texts: &[&str]) -> Vec<String> {
    texts.iter().map(|text| (*text).to_owned()).collect()
}

#[test]
fn named_fetch_origins_de_merge_into_per_service_instances() {
    let mut requested = entries(&[
        "news=fetch:https://news.example",
        "apple=fetch:https://apple.example",
    ]);
    let fetch = FetchScope::extract(&mut requested).expect("origins parse");

    assert!(
        requested.is_empty(),
        "fetch entries are removed from the set the router then binds"
    );
    let services = fetch.services();
    assert_eq!(
        services.len(),
        2,
        "two fetch services de-merge into two instances"
    );
    let names: Vec<&str> = services.iter().map(|s| s.name.as_str()).collect();
    assert!(
        names.contains(&"news") && names.contains(&"apple"),
        "each keeps its served name"
    );
    assert!(
        services.iter().all(|s| s.origin.is_some()),
        "each declared its own origin, so each allowlist is scoped"
    );
}

#[test]
fn bare_fetch_is_refused_with_the_name_addr_teaching_error() {
    let mut requested = entries(&["fetch:"]);
    let Err(error) = FetchScope::extract(&mut requested) else {
        panic!("a bare `fetch:` should be refused, not served");
    };
    assert!(
        error.contains("name=target"),
        "the refusal teaches the grammar: {error}"
    );
    assert_eq!(requested, ["fetch:"], "nothing is taken out");
}

#[test]
fn non_fetch_services_pass_through_and_only_fetch_is_removed() {
    let mut requested = entries(&[
        "ping=ping:",
        "web=tcp:127.0.0.1:8080",
        "gh=fetch:https://api.github.com",
    ]);
    let fetch = FetchScope::extract(&mut requested).expect("origin parses");

    assert_eq!(
        requested,
        vec!["ping=ping:".to_owned(), "web=tcp:127.0.0.1:8080".to_owned()],
        "the fetch entry is removed; ping and the raw forward are left exactly as given, in order"
    );
    assert_eq!(
        fetch.services().len(),
        1,
        "only the one fetch service is de-merged out"
    );
}

#[test]
fn a_malformed_fetch_origin_is_refused_at_expose_time() {
    let mut requested = entries(&["ok=fetch:https://a.example", "bad=fetch:not a url"]);
    assert_eq!(
        FetchScope::extract(&mut requested).expect_err("an unparseable origin is refused"),
        "`bad=fetch:not a url` names no origin to fetch from: relative URL without a base"
    );
    assert_eq!(requested.len(), 2, "nothing is taken out");
}

#[test]
fn a_public_fetch_instance_cannot_reach_a_gated_fetch_s_origins() {
    let mut requested = entries(&[
        "pub=fetch:https://public.example",
        "internal=fetch:http://10.0.0.5",
    ]);
    let fetch = FetchScope::extract(&mut requested).expect("parse");
    let origin = |name: &str| {
        fetch
            .services()
            .iter()
            .find(|s| s.name == name)
            .and_then(|s| s.origin.as_deref())
    };
    assert_eq!(
        origin("pub"),
        Some("https://public.example"),
        "the public fetch is scoped to its own origin only"
    );
    assert_eq!(
        origin("internal"),
        Some("http://10.0.0.5"),
        "the gated fetch holds its own internal origin only"
    );
}

#[test]
fn a_scoped_gated_fetch_does_not_mask_a_bare_public_open_relay() {
    let mut requested = entries(&["internal=fetch:http://10.0.0.5", "pub=fetch:"]);
    let fetch = FetchScope::extract(&mut requested).expect("parse");
    assert!(
        fetch.refuse_open_relay(&entries(&["pub"])).is_err(),
        "an unconstrained public fetch is an open relay even beside a scoped gated fetch (no masking)"
    );
}

#[test]
fn an_unconstrained_public_fetch_is_refused_as_an_open_relay() {
    let mut requested = entries(&["api=fetch:"]);
    let fetch = FetchScope::extract(&mut requested).expect("unconstrained fetch parses");
    let message = fetch
        .refuse_open_relay(&entries(&["api"]))
        .expect_err("a public unconstrained fetch is an open relay and must be refused");
    assert!(
        message.contains("origin-scoped") && message.contains("open relay"),
        "the refusal teaches the fix (origin-scope it) and names the problem (an open relay): {message:?}"
    );
}

#[test]
fn a_scoped_public_fetch_is_allowed() {
    let mut requested = entries(&["api=fetch:https://origin.example"]);
    let fetch = FetchScope::extract(&mut requested).expect("origin parses");
    assert!(
        fetch.refuse_open_relay(&entries(&["api"])).is_ok(),
        "a public fetch scoped to an origin is armed, not an open relay"
    );
}

#[test]
fn a_gated_bare_fetch_is_allowed() {
    let mut requested = entries(&["api=fetch:"]);
    let fetch = FetchScope::extract(&mut requested).expect("unconstrained fetch parses");
    assert!(
        fetch.refuse_open_relay(&Vec::new()).is_ok(),
        "a gated (member-only) fetch is unchanged; the family gate terminates it"
    );
}

#[test]
fn named_recv_dirs_de_merge_into_per_service_instances() {
    let mut requested = entries(&["a=recv:/tmp/x", "b=recv:/tmp/y", "here=recv:"]);
    let recv = extract_recv_services(&mut requested).expect("entries parse");

    assert!(
        requested.is_empty(),
        "recv entries are removed from the set the router then binds"
    );
    let out = |name: &str| {
        recv.iter()
            .find(|s| s.name == name)
            .map(|s| s.out.as_str())
    };
    assert_eq!(out("a"), Some("/tmp/x"), "service a keeps its OWN output dir");
    assert_eq!(
        out("b"),
        Some("/tmp/y"),
        "service b's dir is NOT masked by the first-named one"
    );
    assert_eq!(out("here"), Some("."), "no directory is this one");
    assert_eq!(recv.len(), 3);
}

#[test]
fn bare_recv_is_refused_with_the_name_addr_teaching_error() {
    let mut requested = entries(&["recv:"]);
    let Err(error) = extract_recv_services(&mut requested) else {
        panic!("a bare `recv:` should be refused, not served");
    };
    assert!(
        error.contains("name=target"),
        "the refusal teaches the grammar: {error}"
    );
}

#[test]
fn non_recv_services_pass_through_and_only_recv_is_removed() {
    let mut requested = entries(&["ping=ping:", "in=recv:/tmp/x", "web=tcp:127.0.0.1:8080"]);
    let recv = extract_recv_services(&mut requested).expect("entries parse");

    assert_eq!(
        requested,
        vec!["ping=ping:".to_owned(), "web=tcp:127.0.0.1:8080".to_owned()],
        "the recv entry is removed; ping and the raw forward are left exactly as given, in order"
    );
    assert_eq!(
        recv.len(),
        1,
        "only the one receive service is de-merged out"
    );
}

fn entry(kind: Kind, relative: &str, place: usize) -> Entry {
    Entry {
        kind,
        relative: relative.to_owned(),
        place,
    }
}

/// A directory expands to every file under it, and whatever is neither is passed over.
#[test]
fn a_directory_expands_to_every_file_under_it() {
    let mut walk = Walk::begin(Kind::Directory, "docs", Some("docs"), 0).expect("a directory");
    assert_eq!(walk.next(), Some(0));
    walk.take(&vec![
        entry(Kind::File, "docs/a.txt", 1),
        entry(Kind::Directory, "docs/sub", 2),
        entry(Kind::Other, "docs/pipe", 3),
        entry(Kind::Directory, "docs/last", 4),
    ]);
    assert_eq!(walk.next(), Some(4), "the last one found is read next");
    walk.take(&Vec::new());
    assert_eq!(walk.next(), Some(2));
    walk.take(&vec![entry(Kind::File, r"docs\sub\b.txt", 5)]);
    assert_eq!(walk.next(), None);
    let found: Vec<(&str, usize)> = walk
        .found()
        .iter()
        .map(|file| (file.name.as_str(), file.place))
        .collect();
    assert_eq!(found, [("docs/a.txt", 1), ("docs/sub/b.txt", 5)]);
}

#[test]
fn a_file_is_sent_under_its_own_name() {
    let mut walk = Walk::begin(Kind::File, "/tmp/a.txt", Some("a.txt"), 7).expect("a file");
    assert_eq!(walk.next(), None);
    assert_eq!(walk.found()[0].name, "a.txt");
    assert_eq!(walk.found()[0].place, 7);
    assert_eq!(
        Walk::begin(Kind::File, "a\n/..", None, 0).expect_err("no name"),
        r"path has no file name: a\n/.."
    );
}

#[test]
fn a_hostile_missing_path_renders_escaped_in_the_skip_error() {
    let message = path_context("stat", "/tmp/missing\nname\u{1b}[31m.txt");
    assert!(
        message.contains("stat ") && message.contains(r"missing\nname\u{1b}[31m.txt"),
        "the stat context renders the path escaped: {message:?}"
    );
    assert!(
        !message.contains('\n') && !message.contains('\u{1b}'),
        "no raw newline or ESC rides the error chain onto the skip line: {message:?}"
    );
}
