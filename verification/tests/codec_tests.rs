use wireplug::protocol::{
    IpAddress, SockAddr, WireplugAnnouncement, WireplugEndpoint, WireplugResponse,
    WireplugStunRequest, WireplugStunResponse, WireplugStunResult,
};
use wireplug::wire::{
    decode_announcement, decode_response, decode_stun_request, decode_stun_response,
    encode_announcement, encode_announcement_frame, encode_response, encode_stun_request,
    encode_stun_response, frame_payload, parse_frame_header,
};
use wireplug::MAX_MESSAGE_SIZE;

fn key_of(c: char) -> String {
    let mut s = String::new();
    for _ in 0..43 {
        s.push(c);
    }
    s.push('=');
    s
}

#[test]
fn announcement_round_trip() {
    let ann = WireplugAnnouncement::new(
        &key_of('A'),
        vec![key_of('B'), key_of('C')],
        53211,
        Some(vec![String::from("192.168.1.2/24"), String::from("10.0.0.7/8")]),
    );
    let bytes = encode_announcement(&ann).expect("fits the limit");
    let back = decode_announcement(&bytes).expect("decodes");
    assert_eq!(back, ann);
}

#[test]
fn announcement_round_trip_without_lan_addrs() {
    let ann = WireplugAnnouncement::new(&key_of('A'), vec![], 65535, None);
    let bytes = encode_announcement(&ann).expect("fits the limit");
    let back = decode_announcement(&bytes).expect("decodes");
    assert_eq!(back, ann);
}

#[test]
fn announcement_round_trip_keeps_non_ascii_text() {
    let ann = WireplugAnnouncement::new(
        &key_of('A'),
        vec![],
        2000,
        Some(vec![String::from("caf\u{e9}\u{1F600}/24")]),
    );
    let bytes = encode_announcement(&ann).expect("fits the limit");
    let back = decode_announcement(&bytes).expect("decodes");
    assert_eq!(back, ann);
}

#[test]
fn response_round_trip_covers_every_variant() {
    let resp = WireplugResponse::from_peer_endpoints(vec![
        (key_of('B'), WireplugEndpoint::Unknown),
        (
            key_of('C'),
            WireplugEndpoint::LocalNetwork {
                lan_addrs: vec![String::from("192.168.1.7/24")],
                listen_port: 41000,
            },
        ),
        (
            key_of('D'),
            WireplugEndpoint::RemoteNetwork(SockAddr {
                ip: IpAddress::V4(0xCB007105),
                port: 53211,
            }),
        ),
        (
            key_of('E'),
            WireplugEndpoint::RemoteNetwork(SockAddr {
                ip: IpAddress::V6(0x2001_0db8_0000_0000_0000_0000_0000_0001),
                port: 443,
            }),
        ),
    ]);
    let bytes = encode_response(&resp).expect("fits the limit");
    let back = decode_response(&bytes).expect("decodes");
    assert_eq!(back, resp);
}

#[test]
fn stun_round_trips() {
    let q = WireplugStunRequest::new(50000);
    let bytes = encode_stun_request(&q).expect("fits the limit");
    let back = decode_stun_request(&bytes).expect("decodes");
    assert_eq!(back, q);

    for r in [
        WireplugStunResponse::new(None),
        WireplugStunResponse::new(Some(40000)),
    ] {
        let bytes = encode_stun_response(&r);
        let back = decode_stun_response(&bytes).expect("decodes");
        assert_eq!(back, r);
    }
}

#[test]
fn stun_response_wire_layout_is_little_endian_words() {
    let same = encode_stun_response(&WireplugStunResponse::new(None));
    assert_eq!(same, vec![0, 0, 0, 0]);
    let diff = encode_stun_response(&WireplugStunResponse::new(Some(40000)));
    // 40000 = 0x9C40, carried little-endian in a full word after the
    // discriminant word 1.
    assert_eq!(diff, vec![1, 0, 0, 0, 0x40, 0x9C, 0, 0]);
}

#[test]
fn frame_prefixes_the_length_word() {
    let payload = vec![0xAAu8, 0xBB, 0xCC, 0xDD, 0xEE];
    let framed = frame_payload(&payload).expect("small payload");
    assert_eq!(framed, vec![5, 0, 0, 0, 0xAA, 0xBB, 0xCC, 0xDD, 0xEE]);
    assert_eq!(parse_frame_header(&framed), Some(5));
}

#[test]
fn frame_refuses_oversized_payloads() {
    let payload = vec![0u8; MAX_MESSAGE_SIZE + 1];
    assert_eq!(frame_payload(&payload), None);
    let payload = vec![0u8; MAX_MESSAGE_SIZE];
    assert!(frame_payload(&payload).is_some());
}

#[test]
fn reader_rejects_a_length_over_the_limit() {
    // u32_le(8192) as a client would write it before an oversized body.
    let header = vec![0x00u8, 0x20, 0x00, 0x00];
    assert_eq!(parse_frame_header(&header), None);
    // u32_le(4096) is still acceptable.
    let header = vec![0x00u8, 0x10, 0x00, 0x00];
    assert_eq!(parse_frame_header(&header), Some(4096));
    // A short header is refused too.
    assert_eq!(parse_frame_header(&vec![0x00u8, 0x20]), None);
}

#[test]
fn decoder_rejects_truncated_messages() {
    let ann = WireplugAnnouncement::new(&key_of('A'), vec![key_of('B')], 51820, None);
    let bytes = encode_announcement(&ann).expect("fits the limit");
    let truncated = bytes[..bytes.len() - 1].to_vec();
    assert_eq!(decode_announcement(&truncated), None);
}

#[test]
fn announcement_frame_is_length_then_payload() {
    let ann = WireplugAnnouncement::new(&key_of('A'), vec![], 51820, None);
    let payload = encode_announcement(&ann).expect("fits the limit");
    let framed = encode_announcement_frame(&ann).expect("fits the limit");
    assert_eq!(framed.len(), payload.len() + 4);
    assert_eq!(parse_frame_header(&framed), Some(payload.len()));
    assert_eq!(&framed[4..], &payload[..]);
}

#[test]
fn announcement_wire_starts_with_the_tag_s_character_count() {
    let ann = WireplugAnnouncement::new(&key_of('A'), vec![], 51820, None);
    let bytes = encode_announcement(&ann).expect("fits the limit");
    // The first word is the character count of "Wireplug_V1", little-endian.
    assert_eq!(&bytes[..4], &[11, 0, 0, 0]);
}
