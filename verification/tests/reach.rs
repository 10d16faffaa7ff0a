//! How peers reach a node, as the banner tells it: the channels, the servers they lean on, and the lane that
//! hands an address over.

use swoosh::reach::{
    At, Dialable, Expiring, MdnsState, Missing, Reach, ReachKind, RelayHome, Resolver, Scope,
    Socket, Transport, reach_section,
};

/// n0's relay and n0's discovery.
fn n0() -> Reach {
    Reach::default()
}

/// A URL as it is printed.
fn url(text: &str) -> String {
    url::Url::parse(text).expect("a valid url").to_string()
}

/// The address a node's advertisement was heard at.
const HEARD_AT: &str = "192.168.1.40:58131";

/// The network address a wildcard bind answers on.
const NETWORK_AT: &str = "192.168.1.44:58131";

/// The loopback socket a wildcard bind also answers on.
const LOOPBACK_AT: &str = "127.0.0.1:58131";

/// The loopback socket a v6 wildcard answers on.
const LOOPBACK_V6_AT: &str = "[::1]:58569";

/// A globally routable v6 address, at its own port.
const INTERNET_AT: &str = "[2605:59c1:18c2:df08:1cc1:8f16:193c:5912]:58569";

/// The widest legal address.
const WIDEST_V6_AT: &str = "[2605:59c1:18c2:df08:1cc1:8f16:193c:5912]:65535";

/// The tunnel address a bind answers on, and the link it rides.
const TUNNEL_AT: &str = "100.100.201.59:58131";
const TUNNEL_LINK: &str = "utun4";

/// A socket address by its text.
fn socket(text: &str) -> Socket {
    let port = text.rsplit(':').next().expect("a port");
    Socket {
        text: text.to_owned(),
        v6: text.starts_with('['),
        port: port.parse::<u16>().expect("a valid port"),
    }
}

/// A live advertisement other hosts can hear, at one routable address.
fn heard_on_the_network() -> MdnsState {
    MdnsState::OnLan(vec![socket(HEARD_AT)])
}

/// What a wildcard bind on an ordinary host answers on, handed over out of rank order.
fn wildcard_bind() -> Dialable {
    Dialable::whole(vec![
        at(LOOPBACK_AT, Scope::ThisMachine),
        at(NETWORK_AT, Scope::Network),
    ])
}

/// A dual-stack host: a globally routable v6, a private v4, and loopback.
fn dual_stack_bind() -> Dialable {
    Dialable::whole(vec![
        at(NETWORK_AT, Scope::Network),
        at(LOOPBACK_AT, Scope::ThisMachine),
        at(INTERNET_AT, Scope::Internet),
    ])
}

/// A bind on a host with no address of its own.
fn loopback_bind() -> Dialable {
    Dialable::whole(vec![at(LOOPBACK_AT, Scope::ThisMachine)])
}

/// One entry of a bind's dialable set.
fn at(text: &str, scope: Scope) -> At {
    At {
        socket: socket(text),
        scope,
    }
}

/// A bind that dropped expiring addresses, reported by how far each one reached.
fn expiring(entries: Vec<At>, dropped: Vec<Scope>) -> Dialable {
    let report = Expiring::of(&dropped).expect("a drop report is non-empty by construction");
    Dialable::short(entries, Missing::Expiring(report))
}

/// The direct lane's address rows, verbatim and with their padding intact.
fn lane_rows(section: &str) -> Vec<String> {
    section
        .lines()
        .skip_while(|line| !line.starts_with("  direct"))
        .skip(1)
        .map(str::to_owned)
        .collect()
}

#[test]
fn the_reach_section_handles_blocked_mdns_and_the_direct_lane() {
    let blocked = reach_section(
        ReachKind::Internet,
        &MdnsState::Blocked,
        &n0(),
        &wildcard_bind(),
    );
    assert!(blocked.contains("off; mDNS unavailable here"), "{blocked}");
    assert!(
        blocked.contains("over the internet"),
        "the down-state says what to do instead: {blocked}"
    );

    let direct_only = reach_section(
        ReachKind::DirectOnly,
        &heard_on_the_network(),
        &n0(),
        &wildcard_bind(),
    );
    assert!(
        !direct_only
            .lines()
            .any(|line| line.starts_with("  internet")),
        "a direct-only node shows no internet channel: {direct_only}"
    );
    assert!(direct_only.contains("direct"), "{direct_only}");
    assert!(
        direct_only.contains("hand a peer one of these:"),
        "{direct_only}"
    );
    assert!(
        direct_only.contains(NETWORK_AT) && !direct_only.contains(HEARD_AT),
        "the lane hands over what the BIND answers on, never what mDNS announced: {direct_only}"
    );

    let local = reach_section(
        ReachKind::DirectOnly,
        &MdnsState::LoopbackOnly,
        &n0(),
        &loopback_bind(),
    );
    assert!(local.contains("mDNS on this host only"), "{local}");
    assert!(local.contains("hand a peer this address:"), "{local}");
    assert!(
        local.contains(&format!("{LOOPBACK_AT}  (this machine)")),
        "the one address it has is loopback, and the mark says who it reaches: {local}"
    );
}

#[test]
fn a_blocked_advertisement_still_hands_over_the_hosts_network_addresses() {
    let section = reach_section(
        ReachKind::DirectOnly,
        &MdnsState::Blocked,
        &n0(),
        &wildcard_bind(),
    );

    assert!(
        section.contains("off; mDNS unavailable here, so hand a peer the address below"),
        "the local lane still reports the blocked announcement: {section}"
    );
    assert!(
        section.contains("  direct   hand a peer one of these:\n"),
        "and the lane still offers every address the bind answers on: {section}"
    );
    assert_eq!(
        lane_rows(&section),
        [
            format!("           {NETWORK_AT}  (this network)"),
            format!("           {LOOPBACK_AT}     (this machine)"),
        ],
        "the network address a peer on another host dials leads, whatever mDNS did: {section}"
    );
}

#[test]
fn a_tunnel_address_is_handed_over_marked_and_below_the_network_one() {
    let bind = Dialable::whole(vec![
        at(LOOPBACK_AT, Scope::ThisMachine),
        at(
            TUNNEL_AT,
            Scope::Tunnel {
                link: TUNNEL_LINK.to_owned(),
            },
        ),
        at(NETWORK_AT, Scope::Network),
    ]);

    let section = reach_section(ReachKind::DirectOnly, &heard_on_the_network(), &n0(), &bind);

    assert_eq!(
        lane_rows(&section),
        [
            format!("           {NETWORK_AT}    (this network)"),
            format!("           {TUNNEL_AT}  (this tunnel)"),
            format!("           {LOOPBACK_AT}       (this machine)"),
        ],
        "network first, then the address the overlay answers on, then loopback: {section}"
    );
    assert!(
        !section.contains(TUNNEL_LINK),
        "the OS's name for the link never reaches the screen, so a screenshot names no VPN \
         vendor and no employer: {section}"
    );
    assert!(
        !section.contains("tailnet") && !section.contains("internet"),
        "and the mark claims nothing about what the link joins: {section}"
    );
}

#[test]
fn the_widest_class_says_who_can_route_to_the_address_and_promises_nothing() {
    let section = reach_section(
        ReachKind::DirectOnly,
        &heard_on_the_network(),
        &n0(),
        &dual_stack_bind(),
    );

    assert_eq!(
        lane_rows(&section),
        [
            format!("           {INTERNET_AT}  (the internet)"),
            format!("           {NETWORK_AT}                               (this network)"),
            format!("           {LOOPBACK_AT}                                  (this machine)"),
        ],
        "the globally routable address leads, and every class says how far it goes: {section}"
    );
    assert!(
        !section.contains("anywhere"),
        "the mark classifies the address and never promises a path to it: {section}"
    );
}

#[test]
fn the_lane_renders_one_line_per_class_and_the_v4_leads_its_class() {
    let bind = Dialable::whole(vec![
        at("[::1]:58131", Scope::ThisMachine),
        at(
            TUNNEL_AT,
            Scope::Tunnel {
                link: TUNNEL_LINK.to_owned(),
            },
        ),
        at(
            "[fd7a:115c:a1e0:ab12:4843:cd96:6265:c95f]:58131",
            Scope::Network,
        ),
        at(LOOPBACK_AT, Scope::ThisMachine),
        at(
            "10.0.8.2:58131",
            Scope::Tunnel {
                link: "wg-acmecorp".to_owned(),
            },
        ),
        at(NETWORK_AT, Scope::Network),
    ]);

    let section = reach_section(ReachKind::DirectOnly, &heard_on_the_network(), &n0(), &bind);

    assert_eq!(
        lane_rows(&section),
        [
            format!("           {NETWORK_AT}    (this network)"),
            format!("           {TUNNEL_AT}  (this tunnel)"),
            format!("           {LOOPBACK_AT}       (this machine)"),
        ],
        "six entries, three decisions, and the v4 of each class: {section}"
    );
    assert!(
        !section.contains("wg-acmecorp") && !section.contains("more"),
        "the second link is the same decision, dropped rather than tallied: {section}"
    );
}

#[test]
fn the_lane_says_the_port_rides_the_address_only_when_the_ports_differ() {
    let skewed = reach_section(
        ReachKind::DirectOnly,
        &heard_on_the_network(),
        &n0(),
        &dual_stack_bind(),
    );
    assert!(
        skewed.contains("  direct   hand a peer one of these (each address has its own port):\n"),
        "the rows disagree on the port, so the gloss says the port comes with the address: {skewed}"
    );
    assert!(
        skewed.lines().all(|line| line.chars().count() <= 80),
        "the clause stays inside the 80-column bound: {skewed}"
    );

    let shared = Dialable::whole(vec![
        at(LOOPBACK_AT, Scope::ThisMachine),
        at(
            "[2605:59c1:18c2:df08:1cc1:8f16:193c:5912]:58131",
            Scope::Internet,
        ),
        at(NETWORK_AT, Scope::Network),
    ]);
    let level = reach_section(
        ReachKind::DirectOnly,
        &heard_on_the_network(),
        &n0(),
        &shared,
    );
    assert!(
        level.contains("  direct   hand a peer one of these:\n"),
        "one port across the rendered rows is the ordinary gloss, unchanged: {level}"
    );
}

#[test]
fn a_bind_with_no_address_says_so_rather_than_rendering_a_header_over_nothing() {
    let nothing = Dialable::whole(Vec::new());

    let section = reach_section(ReachKind::DirectOnly, &MdnsState::Blocked, &n0(), &nothing);

    assert!(
        section.contains("  direct   no address to hand over\n"),
        "the lane states the outcome without narrating its own implementation: {section}"
    );
    assert!(
        lane_rows(&section).is_empty(),
        "and prints no row under it: {section}"
    );
}

#[test]
fn the_widest_line_the_lane_can_render_is_the_static_bound() {
    let bound =
        "  direct   ".len() + WIDEST_V6_AT.chars().count() + 2 + "(the internet)".chars().count();
    assert!(
        bound <= 80,
        "the whole of the lane fits an 80-column terminal: {bound}"
    );

    let bind = Dialable::whole(vec![
        at(
            TUNNEL_AT,
            Scope::Tunnel {
                link: "Local Area Connection\u{7}".to_owned(),
            },
        ),
        at(WIDEST_V6_AT, Scope::Internet),
    ]);

    let rows = lane_rows(&reach_section(
        ReachKind::DirectOnly,
        &MdnsState::Blocked,
        &n0(),
        &bind,
    ));
    assert_eq!(
        rows.iter().map(|row| row.chars().count()).max(),
        Some(bound),
        "the widest line the lane can render is the static bound: {rows:?}"
    );
    assert!(
        rows[1].ends_with("  (this tunnel)"),
        "the tunnel mark is fixed-width like every other: {rows:?}"
    );
    assert!(
        !rows[1].contains("Local") && !rows[1].contains('\u{7}'),
        "and the banner carries no externally sourced string at all, whole or truncated: {rows:?}"
    );
}

#[test]
fn a_failed_interface_read_says_the_list_is_short_and_why() {
    let cause = || Missing::Interfaces;

    let one = Dialable::short(vec![at(LOOPBACK_AT, Scope::ThisMachine)], cause());
    let section = reach_section(ReachKind::DirectOnly, &MdnsState::Blocked, &n0(), &one);
    assert!(
        section
            .contains("  direct   could not read this host's addresses; only this one is known:\n"),
        "the cause, then the bound: {section}"
    );
    assert_eq!(
        lane_rows(&section),
        [format!("           {LOOPBACK_AT}  (this machine)")],
        "and the address it does know is still handed over, marked: {section}"
    );

    let many = Dialable::short(
        vec![
            at(LOOPBACK_AT, Scope::ThisMachine),
            at(NETWORK_AT, Scope::Network),
        ],
        cause(),
    );
    let plural = reach_section(ReachKind::DirectOnly, &MdnsState::Blocked, &n0(), &many);
    assert!(
        plural.contains("  direct   could not read this host's addresses; only these are known:\n"),
        "{plural}"
    );

    for section in [&section, &plural] {
        assert!(
            !section.contains("permission denied") && !section.contains("interface"),
            "the gloss carries the why an operator acts on, never the cause's own text: {section}"
        );
        assert!(
            section.lines().all(|line| line.chars().count() <= 80),
            "and stays inside the 80-column bound: {section}"
        );
    }
}

#[test]
fn a_drop_that_empties_a_class_says_which_class_is_expiring() {
    let left = || {
        vec![
            at(LOOPBACK_AT, Scope::ThisMachine),
            at(NETWORK_AT, Scope::Network),
        ]
    };
    let section = reach_section(
        ReachKind::DirectOnly,
        &MdnsState::Blocked,
        &n0(),
        &expiring(left(), vec![Scope::Internet]),
    );
    assert!(
        section.contains("  direct   only expiring addresses reach the internet; what is left:\n"),
        "the class that went is the fact, and the rows left are the bound: {section}"
    );
    let untouched = Dialable::whole(left());
    assert_eq!(
        lane_rows(&section),
        lane_rows(&reach_section(
            ReachKind::DirectOnly,
            &MdnsState::Blocked,
            &n0(),
            &untouched
        )),
        "and the gloss is the ONLY thing the drop changes: {section}"
    );

    let alone = reach_section(
        ReachKind::DirectOnly,
        &MdnsState::Blocked,
        &n0(),
        &expiring(vec![at(LOOPBACK_AT, Scope::ThisMachine)], vec![Scope::Network]),
    );
    assert!(
        alone.contains("  direct   only expiring addresses reach this network; what is left:\n"),
        "{alone}"
    );
    assert_eq!(
        lane_rows(&alone),
        [format!("           {LOOPBACK_AT}  (this machine)")],
        "{alone}"
    );

    let tunnel_gone = reach_section(
        ReachKind::DirectOnly,
        &MdnsState::Blocked,
        &n0(),
        &expiring(
            left(),
            vec![Scope::Tunnel {
                link: TUNNEL_LINK.to_owned(),
            }],
        ),
    );
    assert!(
        tunnel_gone
            .contains("  direct   only expiring addresses reach this tunnel; what is left:\n"),
        "the overlay this host had an address on is a class that lost its only row: {tunnel_gone}"
    );
    assert!(
        !tunnel_gone.contains(TUNNEL_LINK),
        "and the link the dropped address rode is never named, like the address itself: \
         {tunnel_gone}"
    );

    for rendered in [&section, &alone, &tunnel_gone] {
        assert!(
            rendered.lines().all(|line| line.chars().count() <= 80),
            "the widest of the three arms stays inside the 80-column bound: {rendered}"
        );
    }
}

#[test]
fn several_classes_emptied_at_once_name_the_highest_ranked() {
    let losing = reach_section(
        ReachKind::DirectOnly,
        &MdnsState::Blocked,
        &n0(),
        &expiring(
            vec![
                at(LOOPBACK_AT, Scope::ThisMachine),
                at(NETWORK_AT, Scope::Network),
            ],
            vec![
                Scope::Tunnel {
                    link: TUNNEL_LINK.to_owned(),
                },
                Scope::Internet,
            ],
        ),
    );

    assert!(
        losing.contains("  direct   only expiring addresses reach the internet; what is left:\n"),
        "the widest-reaching class that lost its row is the one the gloss names: {losing}"
    );
    assert!(
        !losing.contains("this tunnel"),
        "and the lane spends exactly one gloss, never a list: {losing}"
    );
}

#[test]
fn a_drop_every_class_survived_says_nothing() {
    let entries = || {
        vec![
            at(NETWORK_AT, Scope::Network),
            at(LOOPBACK_AT, Scope::ThisMachine),
            at(INTERNET_AT, Scope::Internet),
        ]
    };
    let dropped = expiring(entries(), vec![Scope::Internet, Scope::Internet]);
    let clean = Dialable::whole(entries());

    assert_eq!(
        reach_section(ReachKind::DirectOnly, &MdnsState::Blocked, &n0(), &dropped),
        reach_section(ReachKind::DirectOnly, &MdnsState::Blocked, &n0(), &clean),
        "a drop no class felt renders exactly as a clean read does"
    );
}

#[test]
fn unreadable_flags_caveat_the_instruction_without_shortening_the_list() {
    let one = Dialable::short(vec![at(LOOPBACK_V6_AT, Scope::ThisMachine)], Missing::Flags);
    let section = reach_section(ReachKind::DirectOnly, &MdnsState::Blocked, &n0(), &one);
    assert!(
        section.contains("  direct   hand a peer this address (could not check for expiry):\n"),
        "the instruction stays whole and only durability is hedged: {section}"
    );
    assert_eq!(
        lane_rows(&section),
        [format!("           {LOOPBACK_V6_AT}  (this machine)")],
        "and the row is still handed over, marked: {section}"
    );

    let many = Dialable::short(
        vec![
            at(LOOPBACK_V6_AT, Scope::ThisMachine),
            at(INTERNET_AT, Scope::Internet),
        ],
        Missing::Flags,
    );
    let plural = reach_section(ReachKind::DirectOnly, &MdnsState::Blocked, &n0(), &many);
    assert!(
        plural.contains("  direct   hand a peer one of these (could not check for expiry):\n"),
        "{plural}"
    );

    for rendered in [&section, &plural] {
        assert!(
            !rendered.contains("only") && !rendered.contains("known"),
            "nothing is missing from this list, so nothing claims the list is short: {rendered}"
        );
        assert!(
            rendered.lines().all(|line| line.chars().count() <= 80),
            "and it stays inside the 80-column bound: {rendered}"
        );
    }
}

#[test]
fn the_loudest_clause_wins_when_two_conditions_hold() {
    let unchecked = Dialable::short(
        vec![
            at(NETWORK_AT, Scope::Network),
            at(LOOPBACK_AT, Scope::ThisMachine),
            at(INTERNET_AT, Scope::Internet),
        ],
        Missing::Flags,
    );
    let caveated = reach_section(
        ReachKind::DirectOnly,
        &MdnsState::Blocked,
        &n0(),
        &unchecked,
    );
    assert!(
        caveated.contains("  direct   hand a peer one of these (could not check for expiry):\n")
            && !caveated.contains("its own port"),
        "the unchecked list is the louder fact, and the ports speak for themselves: {caveated}"
    );

    let short = expiring(
        vec![
            at(LOOPBACK_AT, Scope::ThisMachine),
            at(INTERNET_AT, Scope::Internet),
        ],
        vec![Scope::Network],
    );
    let losing = reach_section(ReachKind::DirectOnly, &MdnsState::Blocked, &n0(), &short);
    assert!(
        losing.contains("  direct   only expiring addresses reach this network; what is left:\n")
            && !losing.contains("its own port"),
        "a class that went missing outranks a skew every row answers for itself: {losing}"
    );
}

#[test]
fn a_default_internet_bind_discloses_its_public_address_records() {
    let section = reach_section(
        ReachKind::Internet,
        &heard_on_the_network(),
        &n0(),
        &wildcard_bind(),
    );
    assert!(
        section.contains(
            "  records    n0's public discovery: your addresses, for anyone with your key\n"
        ),
        "the default bind names the consequence, not the record format: {section}"
    );
    assert!(
        section.contains("(mDNS)"),
        "the LAN disclosure still rides the local line: {section}"
    );

    let widest_other = section
        .lines()
        .filter(|line| !line.contains("records"))
        .map(|line| line.chars().count())
        .max()
        .unwrap_or(0);
    let records: Vec<&str> = section
        .lines()
        .filter(|line| line.contains("records"))
        .collect();
    assert_eq!(records.len(), 1, "the disclosure is ONE line: {section}");
    assert!(
        records[0].chars().count() <= widest_other,
        "the disclosure stays inside the banner's width budget ({widest_other}): {section}"
    );

    let direct = reach_section(
        ReachKind::DirectOnly,
        &heard_on_the_network(),
        &n0(),
        &wildcard_bind(),
    );
    assert!(
        !direct.contains("records"),
        "a bind that publishes nothing discloses nothing: {direct}"
    );
}

#[test]
fn the_reach_section_names_a_relay_and_a_resolver_of_your_own() {
    let relay = || RelayHome::Custom(url("https://relay.example"));
    let resolver = || Resolver::Custom(url("https://dns.example/pkarr"));

    let n0_only = reach_section(
        ReachKind::Internet,
        &heard_on_the_network(),
        &n0(),
        &wildcard_bind(),
    );
    assert!(
        !n0_only.contains("relay"),
        "n0's relays are the documented default and add no line: {n0_only}"
    );

    let resolver_only = reach_section(
        ReachKind::Internet,
        &heard_on_the_network(),
        &Reach {
            relay: RelayHome::N0,
            resolver: resolver(),
        },
        &wildcard_bind(),
    );
    assert!(
        resolver_only.contains(
            "  records    https://dns.example/pkarr: your addresses, for anyone with your key\n"
        ),
        "{resolver_only}"
    );
    assert!(
        resolver_only.contains("  relay      n0's public relays\n"),
        "naming one half says which half is still n0's: {resolver_only}"
    );

    let relay_only = reach_section(
        ReachKind::Internet,
        &heard_on_the_network(),
        &Reach {
            relay: relay(),
            resolver: Resolver::N0,
        },
        &wildcard_bind(),
    );
    assert!(
        relay_only.contains("  relay      https://relay.example/\n"),
        "{relay_only}"
    );
    assert!(
        relay_only.contains(
            "  records    n0's public discovery: your addresses, for anyone with your key\n"
        ),
        "a relay of your own leaves finding a peer to n0, and the split is said out loud: {relay_only}"
    );

    let paired = Reach {
        relay: relay(),
        resolver: resolver(),
    };
    let both = reach_section(
        ReachKind::Internet,
        &heard_on_the_network(),
        &paired,
        &wildcard_bind(),
    );
    assert!(
        both.contains(
            "  records    https://dns.example/pkarr: your addresses, for anyone with your key\n"
        ) && both.contains("  relay      https://relay.example/\n"),
        "{both}"
    );
    assert!(
        !both.contains("n0"),
        "nothing is n0's when both halves are yours: {both}"
    );

    let direct = reach_section(
        ReachKind::DirectOnly,
        &heard_on_the_network(),
        &paired,
        &wildcard_bind(),
    );
    assert!(
        !direct.contains("records") && !direct.contains("relay"),
        "a direct-only bind names neither server even when both are set: {direct}"
    );
}

#[test]
fn an_advertised_node_names_the_addresses_it_is_heard_at() {
    let section = reach_section(
        ReachKind::Internet,
        &heard_on_the_network(),
        &n0(),
        &wildcard_bind(),
    );
    assert!(section.contains("(mDNS), announced at:"), "{section}");
    assert!(
        section.lines().any(|line| line.trim() == HEARD_AT),
        "each published address is bare on its own line: {section}"
    );
    assert!(
        !section.contains("LAN"),
        "the banner states the addresses it observed and promises no reach: {section}"
    );
}

#[test]
fn a_wildcard_direct_bind_hands_over_its_dialable_addresses() {
    let section = reach_section(
        ReachKind::DirectOnly,
        &heard_on_the_network(),
        &n0(),
        &wildcard_bind(),
    );

    assert!(
        section.contains("  direct   hand a peer one of these:\n"),
        "a direct-only bind always renders the lane that hands an address over: {section}"
    );
    assert_eq!(
        lane_rows(&section),
        [
            format!("           {NETWORK_AT}  (this network)"),
            format!("           {LOOPBACK_AT}     (this machine)"),
        ],
        "off-host first at the gloss column, loopback last and scope-marked: {section}"
    );

    assert!(
        !section.contains("announced at:"),
        "the local lane drops its address list under direct-only: {section}"
    );
    assert_eq!(
        section.matches(NETWORK_AT).count(),
        1,
        "each address is named exactly once: {section}"
    );

    assert!(
        section.lines().all(|line| line.chars().count() <= 80),
        "the lane stays inside the 80-column bound: {section}"
    );

    let alone = reach_section(
        ReachKind::DirectOnly,
        &MdnsState::LoopbackOnly,
        &n0(),
        &loopback_bind(),
    );
    assert!(
        alone.contains("  direct   hand a peer this address:\n"),
        "the lane renders whatever the bind has: {alone}"
    );
    assert!(
        !alone.contains(NETWORK_AT),
        "and never an address this bind does not answer on: {alone}"
    );
}

#[test]
fn a_loopback_only_advertisement_says_this_host_only_and_asks_for_a_hint() {
    let section = reach_section(
        ReachKind::Internet,
        &MdnsState::LoopbackOnly,
        &n0(),
        &wildcard_bind(),
    );
    assert!(section.contains("mDNS on this host only"), "{section}");
    assert!(
        section.contains("a direct address hint"),
        "the degraded lane names the next step: {section}"
    );
    assert!(
        !section.contains("automatic; your devices just need the key (mDNS)"),
        "a loopback-only advertisement never claims the live gloss: {section}"
    );
}

#[test]
fn a_browse_only_node_says_it_is_not_announcing_and_names_the_cause() {
    let section = reach_section(
        ReachKind::Internet,
        &MdnsState::BrowseOnly("no local addresses to advertise".to_owned()),
        &n0(),
        &wildcard_bind(),
    );
    assert!(
        section.contains("finding peers, not announcing you"),
        "{section}"
    );
    assert!(
        section.contains("no local addresses to advertise"),
        "the lane carries the cause of the empty advertisement: {section}"
    );
    assert!(
        !section.contains("automatic; your devices just need the key (mDNS)"),
        "a node announcing nothing never claims the live gloss: {section}"
    );
}

#[test]
fn a_local_bind_is_direct_only_and_never_says_lan() {
    assert_eq!(
        ReachKind::of(Transport::Iroh, true),
        ReachKind::DirectOnly,
        "an iroh --local node has no internet channel"
    );
    assert_eq!(ReachKind::of(Transport::Iroh, false), ReachKind::Internet);
    assert_eq!(
        ReachKind::of(Transport::Quirk, false),
        ReachKind::DirectOnly
    );
    assert_eq!(
        ReachKind::of(Transport::QuirkNoise, false),
        ReachKind::DirectOnly
    );
    assert_eq!(
        ReachKind::of(Transport::QuirkNoise, true),
        ReachKind::DirectOnly
    );

    let section = reach_section(
        ReachKind::DirectOnly,
        &heard_on_the_network(),
        &n0(),
        &wildcard_bind(),
    );
    assert!(
        section.contains("automatic; local mDNS, or direct, no NAT traversal"),
        "a direct-only bind glosses the local mDNS lane and the no-NAT limit: {section}"
    );
    assert!(section.contains("local"), "{section}");
    assert!(!section.contains("internet"), "{section}");
    assert!(
        !section.contains("LAN"),
        "no surface says LAN: {section}"
    );
}
