//! The reflector's per-datagram work: compare the port a client declared
//! with the source port the kernel observed, and answer.

use vstd::prelude::*;

use crate::protocol::{WireplugStunResponse, WireplugStunResult};
use crate::wire::{dec_stun_request, decode_stun_request, enc_stun_response, encode_stun_response};

verus! {

/// The reflector's answer: agreement when the observed source port equals
/// the declared one, otherwise the observed port.
pub open spec fn spec_stun_reply(declared: u16, observed: u16) -> WireplugStunResponse {
    if observed == declared {
        WireplugStunResponse { result: WireplugStunResult::SamePort }
    } else {
        WireplugStunResponse { result: WireplugStunResult::DifferentPort(observed) }
    }
}

/// Builds the reflector's answer to one declared/observed port pair.
pub fn stun_reply(declared: u16, observed: u16) -> (r: WireplugStunResponse)
    ensures
        r == spec_stun_reply(declared, observed),
{
    if observed == declared {
        WireplugStunResponse::new(None)
    } else {
        WireplugStunResponse::new(Some(observed))
    }
}

/// Handles one reflector datagram: an undecodable one is dropped without a
/// reply; a decodable one earns the encoded answer for its declared port
/// against the observed source port.
pub fn handle_stun_datagram(datagram: &Vec<u8>, observed_port: u16) -> (r: Option<Vec<u8>>)
    ensures
        (match r {
            Some(out) => dec_stun_request(datagram@, 0) matches Some(p) && out@
                == enc_stun_response(spec_stun_reply(p.0.port, observed_port)),
            None => dec_stun_request(datagram@, 0) is None,
        }),
{
    let request = match decode_stun_request(datagram) {
        Some(q) => q,
        None => {
            return None;
        },
    };
    let reply = stun_reply(request.port, observed_port);
    Some(encode_stun_response(&reply))
}

} // verus!
