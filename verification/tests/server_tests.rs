use wireplug::handler::process_announcement;
use wireplug::protocol::{
    IpAddress, SockAddr, WireplugAnnouncement, WireplugEndpoint, WireplugResponse,
};
use wireplug::storage::{Record, Storage};
use wireplug::stun::handle_stun_datagram;
use wireplug::wire::{decode_stun_response, encode_stun_request};
use wireplug::protocol::{WireplugStunRequest, WireplugStunResult};
use wireplug::RECORD_TTL;

fn key_of(c: char) -> String {
    let mut s = String::new();
    for _ in 0..43 {
        s.push(c);
    }
    s.push('=');
    s
}

fn endpoint_of<'a>(resp: &'a WireplugResponse, key: &str) -> &'a WireplugEndpoint {
    for (k, e) in &resp.peer_endpoints {
        if k == key {
            return e;
        }
    }
    panic!("peer missing from response");
}

// 203.0.113.5 and 198.51.100.9 as 32-bit values.
const NAT_A: IpAddress = IpAddress::V4(0xCB00_7105);
const WAN_B: IpAddress = IpAddress::V4(0xC633_6409);

#[test]
fn two_peers_behind_the_same_nat_see_local_network() {
    let alice = key_of('A');
    let bob = key_of('B');
    let mut storage = Storage::new();

    let ann_a = WireplugAnnouncement::new(
        &alice,
        vec![bob.clone()],
        53211,
        Some(vec![String::from("192.168.1.2/24")]),
    );
    let resp_a = process_announcement(&mut storage, NAT_A, 1000, &ann_a).expect("valid");
    assert_eq!(*endpoint_of(&resp_a, &bob), WireplugEndpoint::Unknown);

    let ann_b = WireplugAnnouncement::new(
        &bob,
        vec![alice.clone()],
        41000,
        Some(vec![String::from("192.168.1.7/24")]),
    );
    let resp_b = process_announcement(&mut storage, NAT_A, 1010, &ann_b).expect("valid");
    assert_eq!(
        *endpoint_of(&resp_b, &alice),
        WireplugEndpoint::LocalNetwork {
            lan_addrs: vec![String::from("192.168.1.2/24")],
            listen_port: 53211,
        }
    );

    let resp_a2 = process_announcement(&mut storage, NAT_A, 1020, &ann_a).expect("valid");
    assert_eq!(
        *endpoint_of(&resp_a2, &bob),
        WireplugEndpoint::LocalNetwork {
            lan_addrs: vec![String::from("192.168.1.7/24")],
            listen_port: 41000,
        }
    );
}

#[test]
fn cross_wan_peers_see_each_other_s_observed_endpoint() {
    let alice = key_of('A');
    let bob = key_of('B');
    let mut storage = Storage::new();

    let ann_a = WireplugAnnouncement::new(&alice, vec![bob.clone()], 53211, None);
    process_announcement(&mut storage, NAT_A, 1000, &ann_a).expect("valid");

    let ann_b = WireplugAnnouncement::new(&bob, vec![alice.clone()], 41000, None);
    let resp_b = process_announcement(&mut storage, WAN_B, 1010, &ann_b).expect("valid");
    assert_eq!(
        *endpoint_of(&resp_b, &alice),
        WireplugEndpoint::RemoteNetwork(SockAddr { ip: NAT_A, port: 53211 })
    );

    let resp_a2 = process_announcement(&mut storage, NAT_A, 1020, &ann_a).expect("valid");
    assert_eq!(
        *endpoint_of(&resp_a2, &bob),
        WireplugEndpoint::RemoteNetwork(SockAddr { ip: WAN_B, port: 41000 })
    );
}

#[test]
fn lan_addrs_absent_yields_an_empty_local_network_list() {
    let alice = key_of('A');
    let bob = key_of('B');
    let mut storage = Storage::new();
    let ann_a = WireplugAnnouncement::new(&alice, vec![bob.clone()], 53211, None);
    process_announcement(&mut storage, NAT_A, 1000, &ann_a).expect("valid");
    let ann_b = WireplugAnnouncement::new(&bob, vec![alice.clone()], 41000, None);
    let resp_b = process_announcement(&mut storage, NAT_A, 1010, &ann_b).expect("valid");
    assert_eq!(
        *endpoint_of(&resp_b, &alice),
        WireplugEndpoint::LocalNetwork { lan_addrs: vec![], listen_port: 53211 }
    );
}

#[test]
fn invalid_announcement_is_refused_and_stores_nothing() {
    let bob = key_of('B');
    let mut storage = Storage::new();
    let ann = WireplugAnnouncement::new(&String::from("nonsense"), vec![bob.clone()], 53211, None);
    assert!(process_announcement(&mut storage, NAT_A, 1000, &ann).is_none());

    // Bob now announces; the bad announcement must not have left an edge.
    let alice = key_of('A');
    let ann_b = WireplugAnnouncement::new(&bob, vec![alice], 41000, None);
    let resp_b = process_announcement(&mut storage, NAT_A, 1010, &ann_b).expect("valid");
    for (_, e) in &resp_b.peer_endpoints {
        assert_eq!(*e, WireplugEndpoint::Unknown);
    }
}

#[test]
fn duplicate_peers_collapse_to_one_response_entry() {
    let alice = key_of('A');
    let bob = key_of('B');
    let mut storage = Storage::new();
    let ann = WireplugAnnouncement::new(&alice, vec![bob.clone(), bob.clone()], 53211, None);
    let resp = process_announcement(&mut storage, NAT_A, 1000, &ann).expect("valid");
    assert_eq!(resp.peer_endpoints.len(), 1);
    assert_eq!(resp.peer_endpoints[0].0, bob);
}

#[test]
fn stale_records_are_not_returned_from_a_read() {
    let alice = key_of('A');
    let bob = key_of('B');
    let mut storage = Storage::new();
    storage.insert(
        &alice,
        &bob,
        Record {
            wan_addr: SockAddr { ip: NAT_A, port: 53211 },
            lan_addrs: None,
            timestamp: 100,
        },
    );
    assert!(storage.get(&alice, &bob, 100).is_some());
    assert!(storage.get(&alice, &bob, 100 + RECORD_TTL).is_some());
    assert!(storage.get(&alice, &bob, 100 + RECORD_TTL + 1).is_none());
    // A record stamped in the future is not served either.
    assert!(storage.get(&alice, &bob, 99).is_none());
}

#[test]
fn expired_records_mean_unknown_to_the_handler() {
    let alice = key_of('A');
    let bob = key_of('B');
    let mut storage = Storage::new();
    let ann_a = WireplugAnnouncement::new(&alice, vec![bob.clone()], 53211, None);
    process_announcement(&mut storage, NAT_A, 1000, &ann_a).expect("valid");
    let ann_b = WireplugAnnouncement::new(&bob, vec![alice.clone()], 41000, None);
    let late = 1000 + RECORD_TTL + 1;
    let resp_b = process_announcement(&mut storage, NAT_A, late, &ann_b).expect("valid");
    assert_eq!(*endpoint_of(&resp_b, &alice), WireplugEndpoint::Unknown);
}

#[test]
fn sweep_evicts_exactly_the_expired_records() {
    let alice = key_of('A');
    let bob = key_of('B');
    let carol = key_of('C');
    let mut storage = Storage::new();
    let rec = |ts: u64| Record {
        wan_addr: SockAddr { ip: NAT_A, port: 53211 },
        lan_addrs: None,
        timestamp: ts,
    };
    storage.insert(&alice, &bob, rec(100));
    storage.insert(&alice, &carol, rec(3000));
    assert_eq!(storage.len(), 2);
    let now = 100 + RECORD_TTL + 1;
    storage.sweep(now);
    assert_eq!(storage.len(), 1);
    assert!(storage.get(&alice, &bob, now).is_none());
    assert!(storage.get(&alice, &carol, now).is_some());
}

#[test]
fn insert_overwrites_the_record_under_its_key() {
    let alice = key_of('A');
    let bob = key_of('B');
    let mut storage = Storage::new();
    let rec = |port: u16, ts: u64| Record {
        wan_addr: SockAddr { ip: NAT_A, port },
        lan_addrs: None,
        timestamp: ts,
    };
    storage.insert(&alice, &bob, rec(1111, 100));
    storage.insert(&alice, &bob, rec(2222, 200));
    assert_eq!(storage.len(), 1);
    let got = storage.get(&alice, &bob, 250).expect("fresh");
    assert_eq!(got.wan_addr.port, 2222);
    assert_eq!(got.timestamp, 200);
}

#[test]
fn reflector_answers_same_port_when_ports_agree() {
    let q = WireplugStunRequest::new(4444);
    let datagram = encode_stun_request(&q).expect("small");
    let out = handle_stun_datagram(&datagram, 4444).expect("decodable");
    let resp = decode_stun_response(&out).expect("decodes");
    assert_eq!(resp.result, WireplugStunResult::SamePort);
}

#[test]
fn reflector_answers_the_observed_port_when_ports_differ() {
    let q = WireplugStunRequest::new(4444);
    let datagram = encode_stun_request(&q).expect("small");
    let out = handle_stun_datagram(&datagram, 40000).expect("decodable");
    let resp = decode_stun_response(&out).expect("decodes");
    assert_eq!(resp.result, WireplugStunResult::DifferentPort(40000));
}

#[test]
fn reflector_drops_an_undecodable_datagram() {
    let garbage = vec![0xFFu8, 0x00, 0x01];
    assert_eq!(handle_stun_datagram(&garbage, 4444), None);
}

#[test]
fn status_walk_lists_records_with_their_age() {
    let alice = key_of('A');
    let bob = key_of('B');
    let mut storage = Storage::new();
    storage.insert(
        &alice,
        &bob,
        Record {
            wan_addr: SockAddr { ip: NAT_A, port: 53211 },
            lan_addrs: None,
            timestamp: 500,
        },
    );
    assert_eq!(storage.len(), 1);
    let (a, b, rec) = storage.entry_at(0);
    assert_eq!(a, &alice);
    assert_eq!(b, &bob);
    assert_eq!(rec.wan_addr.port, 53211);
    assert_eq!(Storage::seconds_ago(rec.timestamp, 530), 30);
    assert_eq!(Storage::seconds_ago(rec.timestamp, 400), 0);
}
