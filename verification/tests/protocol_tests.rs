use wireplug::protocol::{
    is_valid_wgkey, WireplugAnnouncement, WireplugResponse, WireplugStunRequest,
    WireplugStunResponse, WireplugStunResult,
};

fn key_of(c: char) -> String {
    let mut s = String::new();
    for _ in 0..43 {
        s.push(c);
    }
    s.push('=');
    s
}

#[test]
fn wgkey_accepts_base64_of_right_length() {
    assert!(is_valid_wgkey("AAAAAAAAAAAAAAAAAAAAAAAAAAAAAAAAAAAAAAAAAAA="));
    assert!(is_valid_wgkey("abcDEF0123456789+/abcDEF0123456789+/abcDEF0="));
}

#[test]
fn wgkey_rejects_wrong_length_and_alphabet() {
    assert!(!is_valid_wgkey(""));
    assert!(!is_valid_wgkey("AAAAAAAAAAAAAAAAAAAAAAAAAAAAAAAA"));
    assert!(!is_valid_wgkey("AAAAAAAAAAAAAAAAAAAAAAAAAAAAAAAAAAAAAAAAAAA!"));
    assert!(!is_valid_wgkey("AAAAAAAAAAAAAAAAAAAAAAAAAAAAAAAAAAAAAAAAAAAA="));
    assert!(!is_valid_wgkey("AAAAAAAAAAAAAAAAAAAAA AAAAAAAAAAAAAAAAAAAAA="));
}

#[test]
fn announcement_new_is_valid_in_user_port_range() {
    let alice = key_of('A');
    let bob = key_of('B');
    let ann = WireplugAnnouncement::new(
        &alice,
        vec![bob.clone()],
        51820,
        Some(vec![String::from("192.168.1.2/24")]),
    );
    assert!(ann.valid());
    assert_eq!(ann.initiator_pubkey, alice);
    assert_eq!(ann.peer_pubkeys, vec![bob]);
    assert_eq!(ann.listen_port, 51820);
    assert_eq!(ann.lan_addrs, Some(vec![String::from("192.168.1.2/24")]));
}

#[test]
fn announcement_rejects_low_port() {
    let ann = WireplugAnnouncement::new(&key_of('A'), vec![key_of('B')], 1023, None);
    assert!(!ann.valid());
    let ann = WireplugAnnouncement::new(&key_of('A'), vec![key_of('B')], 1024, None);
    assert!(ann.valid());
}

#[test]
fn announcement_rejects_bad_keys() {
    let ann = WireplugAnnouncement::new(&String::from("short"), vec![key_of('B')], 51820, None);
    assert!(!ann.valid());
    let ann = WireplugAnnouncement::new(&key_of('A'), vec![String::from("short")], 51820, None);
    assert!(!ann.valid());
    let ann = WireplugAnnouncement::new(&key_of('A'), vec![], 51820, None);
    assert!(ann.valid());
}

#[test]
fn announcement_rejects_wrong_protocol_tag() {
    let ann = WireplugAnnouncement {
        proto: String::from("Wireplug_V0"),
        initiator_pubkey: key_of('A'),
        peer_pubkeys: vec![],
        listen_port: 51820,
        lan_addrs: None,
    };
    assert!(!ann.valid());
}

#[test]
fn response_validity_follows_the_tag() {
    let r = WireplugResponse::from_peer_endpoints(vec![]);
    assert!(r.valid());
    let r = WireplugResponse {
        proto: String::from("something_else"),
        peer_endpoints: vec![],
    };
    assert!(!r.valid());
}

#[test]
fn stun_request_carries_the_port() {
    let q = WireplugStunRequest::new(4455);
    assert_eq!(q.port, 4455);
}

#[test]
fn stun_response_wraps_the_observation() {
    let same = WireplugStunResponse::new(None);
    assert_eq!(same.result, WireplugStunResult::SamePort);
    let diff = WireplugStunResponse::new(Some(40000));
    assert_eq!(diff.result, WireplugStunResult::DifferentPort(40000));
}
