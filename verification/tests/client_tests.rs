use wireplug::config::Config;
use wireplug::daemon::{cycle_decision, probe_decision, retain_unacked, CycleCommand, ProbeDecision};
use wireplug::natclass::{detect_port_mapping, get_observed_port, NatError, NatKind, PortMappingNat};
use wireplug::natclass::build_stun_request;
use wireplug::netmon::{parse_ipv4, wan_ip_of_http_response, NetInfo, NetStatus, NetworkMonitor};
use wireplug::protocol::{is_valid_wgkey, IpAddress, SockAddr, WireplugEndpoint, WireplugStunResult};
use wireplug::tracker::PeersActivity;
use wireplug::wg::{
    configure_peer_plans, get_all_peers, get_inactive_peers_by_last_handshake,
    get_inactive_peers_by_rx, init_peers_activity, update_peers, PeerSample, PeerUpdate,
    UpdatePeersError,
};
use wireplug::wire::decode_stun_request;
use wireplug::COMMON_PKA;

fn key_of(c: char) -> String {
    let mut s = String::new();
    for _ in 0..43 {
        s.push(c);
    }
    s.push('=');
    s
}

// ---------------------------------------------------------------------------
// NAT classification
// ---------------------------------------------------------------------------
#[test]
fn nat_easy_keeps_the_local_port() {
    let v = detect_port_mapping(50000, WireplugStunResult::SamePort, WireplugStunResult::SamePort);
    assert_eq!(v, Ok(NatKind::Easy));
    assert_eq!(
        get_observed_port(50000, WireplugStunResult::SamePort, WireplugStunResult::SamePort),
        Some(50000)
    );
}

#[test]
fn nat_fixed_mapping_announces_the_observed_port() {
    let first = WireplugStunResult::DifferentPort(40000);
    let second = WireplugStunResult::DifferentPort(40000);
    let v = detect_port_mapping(50000, first, second);
    assert_eq!(
        v,
        Ok(NatKind::FixedPortMapping(PortMappingNat::new(50000, 40000)))
    );
    assert_eq!(get_observed_port(50000, first, second), Some(40000));
}

#[test]
fn nat_hard_yields_no_port() {
    let first = WireplugStunResult::DifferentPort(40000);
    let second = WireplugStunResult::DifferentPort(40001);
    assert_eq!(detect_port_mapping(50000, first, second), Ok(NatKind::Hard));
    assert_eq!(get_observed_port(50000, first, second), None);
    assert_eq!(probe_decision(50000, first, second), ProbeDecision::SetHardNat);
}

#[test]
fn nat_mixed_results_are_a_protocol_error() {
    let v = detect_port_mapping(
        50000,
        WireplugStunResult::SamePort,
        WireplugStunResult::DifferentPort(40000),
    );
    assert_eq!(v, Err(NatError::InconsistentNat));
    let v = detect_port_mapping(
        50000,
        WireplugStunResult::DifferentPort(40000),
        WireplugStunResult::SamePort,
    );
    assert_eq!(v, Err(NatError::InconsistentNat));
    assert_eq!(
        get_observed_port(
            50000,
            WireplugStunResult::SamePort,
            WireplugStunResult::DifferentPort(40000)
        ),
        None
    );
}

#[test]
fn probe_datagram_declares_the_local_port() {
    let datagram = build_stun_request(50000);
    let q = decode_stun_request(&datagram).expect("decodes");
    assert_eq!(q.port, 50000);
}

// ---------------------------------------------------------------------------
// Network monitor
// ---------------------------------------------------------------------------
#[test]
fn monitor_walks_the_transition_table() {
    let mut mon = NetworkMonitor::new();
    let offline = NetInfo { wan_ip4: None };
    let a = NetInfo { wan_ip4: Some(0x0101_0101) };
    let b = NetInfo { wan_ip4: Some(0x0202_0202) };

    assert_eq!(mon.status(offline), NetStatus::Offline);
    assert_eq!(mon.status(a), NetStatus::ChangedToNew);
    assert_eq!(mon.status(a), NetStatus::Online);
    mon.set_hard_nat(true);
    assert_eq!(mon.status(a), NetStatus::HardNat);
    // A new address clears the sticky flag.
    assert_eq!(mon.status(b), NetStatus::ChangedToNew);
    assert_eq!(mon.status(b), NetStatus::Online);
    // Going offline saves the address; coming back to it is a return to the
    // previous network.
    assert_eq!(mon.status(offline), NetStatus::Offline);
    assert_eq!(mon.status(b), NetStatus::ChangedToPrev);
}

#[test]
fn monitor_reports_hard_nat_on_return_to_previous() {
    let mut mon = NetworkMonitor::new();
    let a = NetInfo { wan_ip4: Some(0x0101_0101) };
    assert_eq!(mon.status(a), NetStatus::ChangedToNew);
    assert_eq!(mon.status(NetInfo { wan_ip4: None }), NetStatus::Offline);
    mon.set_hard_nat(true);
    assert_eq!(mon.status(a), NetStatus::HardNat);
}

// ---------------------------------------------------------------------------
// Parsing the IP-echo response
// ---------------------------------------------------------------------------
#[test]
fn ipv4_parser_matches_the_dotted_quad_grammar() {
    assert_eq!(parse_ipv4("1.2.3.4"), Some(0x0102_0304));
    assert_eq!(parse_ipv4("0.0.0.0"), Some(0));
    assert_eq!(parse_ipv4("255.255.255.255"), Some(0xFFFF_FFFF));
    assert_eq!(parse_ipv4("93.184.216.34"), Some(0x5DB8_D822));
    assert_eq!(parse_ipv4("01.2.3.4"), None);
    assert_eq!(parse_ipv4("256.1.1.1"), None);
    assert_eq!(parse_ipv4("1.2.3"), None);
    assert_eq!(parse_ipv4("1.2.3.4.5"), None);
    assert_eq!(parse_ipv4("1.2.3.4 "), None);
    assert_eq!(parse_ipv4(""), None);
    assert_eq!(parse_ipv4("a.b.c.d"), None);
}

#[test]
fn wan_ip_is_read_from_the_http_body() {
    let response = "HTTP/1.1 200 OK\r\nContent-Type: text/plain\r\nContent-Length: 14\r\n\r\n 93.184.216.34\n";
    assert_eq!(wan_ip_of_http_response(response), Some(0x5DB8_D822));
    let no_body = "HTTP/1.1 200 OK\r\nContent-Type: text/plain";
    assert_eq!(wan_ip_of_http_response(no_body), None);
    let bad_body = "HTTP/1.1 200 OK\r\n\r\nnot an address";
    assert_eq!(wan_ip_of_http_response(bad_body), None);
}

// ---------------------------------------------------------------------------
// Activity tracking
// ---------------------------------------------------------------------------
#[test]
fn tracker_marks_new_and_advancing_peers_active() {
    let mut tracker = PeersActivity::new();
    let k = key_of('A');
    assert!(tracker.update(&k, 10));
    assert!(!tracker.update(&k, 10));
    assert!(tracker.update(&k, 11));
    // The latest counter is stored even when it went backwards.
    assert!(!tracker.update(&k, 5));
    assert!(tracker.update(&k, 6));
}

fn sample(c: char, rx: u64, has_handshake: bool, age: u64, pka: u16) -> PeerSample {
    PeerSample {
        public_key: key_of(c),
        rx_bytes: rx,
        has_handshake,
        handshake_age_secs: age,
        persistent_keepalive: pka,
    }
}

#[test]
fn rx_scan_reports_stalled_and_handshakeless_peers() {
    let mut tracker = PeersActivity::new();
    let first = vec![
        sample('A', 10, true, 5, 25),
        sample('B', 5, false, 0, 25),
        sample('C', 0, true, 5, 25),
    ];
    // Everything with a handshake is new to the tracker, so only the peer
    // without a handshake is inactive.
    let inactive = get_inactive_peers_by_rx(&first, &mut tracker);
    assert_eq!(inactive, vec![key_of('B')]);

    let second = vec![
        sample('A', 10, true, 5, 25),
        sample('B', 5, true, 5, 25),
        sample('C', 7, true, 5, 25),
    ];
    // A's counter did not advance; B is newly tracked; C advanced.
    let inactive = get_inactive_peers_by_rx(&second, &mut tracker);
    assert_eq!(inactive, vec![key_of('A')]);
}

#[test]
fn init_pass_seeds_the_tracker() {
    let mut tracker = PeersActivity::new();
    let peers = vec![sample('A', 10, true, 5, 25)];
    init_peers_activity(&peers, &mut tracker);
    // The same counter right after seeding is no longer an advance.
    let inactive = get_inactive_peers_by_rx(&peers, &mut tracker);
    assert_eq!(inactive, vec![key_of('A')]);
}

#[test]
fn handshake_age_classifies_against_the_larger_bound() {
    let peers = vec![
        sample('A', 0, true, 200, 25),
        sample('B', 0, true, 200, 250),
        sample('C', 0, false, 0, 25),
        sample('D', 0, true, 179, 25),
    ];
    let inactive = get_inactive_peers_by_last_handshake(&peers);
    // A is over the 180 s bound; B's keepalive of 250 s covers its age;
    // C never shook hands; D is within the bound.
    assert_eq!(inactive, vec![key_of('A'), key_of('C')]);
}

#[test]
fn all_peers_are_listed_in_order() {
    let peers = vec![sample('A', 0, true, 0, 25), sample('B', 0, false, 0, 25)];
    assert_eq!(get_all_peers(&peers), vec![key_of('A'), key_of('B')]);
}

// ---------------------------------------------------------------------------
// Endpoint updates
// ---------------------------------------------------------------------------
#[test]
fn update_peers_keeps_exactly_the_usable_endpoints() {
    let entries = vec![
        (key_of('K'), WireplugEndpoint::Unknown),
        (
            key_of('L'),
            WireplugEndpoint::LocalNetwork {
                lan_addrs: vec![String::from("10.1.2.3/24"), String::from("10.9.9.9/24")],
                listen_port: 7777,
            },
        ),
        (
            key_of('M'),
            WireplugEndpoint::LocalNetwork { lan_addrs: vec![], listen_port: 1 },
        ),
        (
            key_of('N'),
            WireplugEndpoint::RemoteNetwork(SockAddr {
                ip: IpAddress::V4(0x0102_0304),
                port: 999,
            }),
        ),
    ];
    let plan = update_peers(&entries).expect("all addresses parse");
    assert_eq!(
        plan,
        vec![
            PeerUpdate {
                public_key: key_of('L'),
                endpoint: SockAddr { ip: IpAddress::V4(0x0A01_0203), port: 7777 },
            },
            PeerUpdate {
                public_key: key_of('N'),
                endpoint: SockAddr { ip: IpAddress::V4(0x0102_0304), port: 999 },
            },
        ]
    );
}

#[test]
fn update_peers_refuses_a_bad_lan_address() {
    let entries = vec![(
        key_of('L'),
        WireplugEndpoint::LocalNetwork {
            lan_addrs: vec![String::from("not a cidr")],
            listen_port: 7777,
        },
    )];
    assert_eq!(update_peers(&entries), Err(UpdatePeersError::BadLanAddr));
}

#[test]
fn update_peers_takes_a_v6_lan_address() {
    let entries = vec![(
        key_of('L'),
        WireplugEndpoint::LocalNetwork {
            lan_addrs: vec![String::from("2001:db8::1/64")],
            listen_port: 7777,
        },
    )];
    let plan = update_peers(&entries).expect("parses");
    assert_eq!(
        plan[0].endpoint,
        SockAddr {
            ip: IpAddress::V6(0x2001_0db8_0000_0000_0000_0000_0000_0001),
            port: 7777,
        }
    );
}

// ---------------------------------------------------------------------------
// Control loop decisions
// ---------------------------------------------------------------------------
#[test]
fn cycle_decision_follows_the_status() {
    assert_eq!(cycle_decision(NetStatus::Offline, true, 50000), CycleCommand::Backoff);
    assert_eq!(cycle_decision(NetStatus::HardNat, true, 50000), CycleCommand::Backoff);
    assert_eq!(cycle_decision(NetStatus::Online, true, 50000), CycleCommand::Continue);
    assert_eq!(cycle_decision(NetStatus::ChangedToPrev, true, 50000), CycleCommand::Continue);
    assert_eq!(
        cycle_decision(NetStatus::ChangedToNew, true, 50000),
        CycleCommand::ProbeNat { local_port: 50000 }
    );
    assert_eq!(
        cycle_decision(NetStatus::ChangedToNew, false, 50000),
        CycleCommand::CommitPort { port: 50000 }
    );
}

#[test]
fn probe_decision_commits_the_classified_port() {
    assert_eq!(
        probe_decision(50000, WireplugStunResult::SamePort, WireplugStunResult::SamePort),
        ProbeDecision::CommitPort { port: 50000 }
    );
    assert_eq!(
        probe_decision(
            50000,
            WireplugStunResult::DifferentPort(40000),
            WireplugStunResult::DifferentPort(40000)
        ),
        ProbeDecision::CommitPort { port: 40000 }
    );
}

#[test]
fn acked_peers_leave_the_inactive_list() {
    let peers = vec![key_of('A'), key_of('B'), key_of('C')];
    let acked = vec![key_of('B')];
    assert_eq!(retain_unacked(&peers, &acked), vec![key_of('A'), key_of('C')]);
    let none_acked: Vec<String> = vec![];
    assert_eq!(retain_unacked(&peers, &none_acked), peers);
}

// ---------------------------------------------------------------------------
// Configuration
// ---------------------------------------------------------------------------
#[test]
fn generated_example_carries_a_wellformed_keypair() {
    let cfg = Config::new_example_with_random_key();
    assert!(is_valid_wgkey(cfg.interface.private_key.as_str()));
    let public = cfg.interface.public_key.expect("example has a public key");
    assert!(is_valid_wgkey(public.as_str()));
    assert_eq!(cfg.interface.address, "10.0.0.1/24");
    assert_eq!(cfg.peers.len(), 1);
    assert_eq!(cfg.peers[0].allowed_ips, "10.0.0.2");
}

#[test]
fn configured_peers_all_get_the_mandatory_keepalive() {
    let cfg = Config::new_example_with_random_key();
    let plans = configure_peer_plans(&cfg.peers);
    assert_eq!(plans.len(), 1);
    assert_eq!(plans[0].keepalive, COMMON_PKA);
    assert_eq!(plans[0].public_key, cfg.peers[0].public_key);
    assert_eq!(plans[0].allowed_ip, cfg.peers[0].allowed_ips);
}
