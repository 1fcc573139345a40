//! The NAT classifier: what two reflector probes from one local port say
//! about the NAT in front of this host.

use vstd::prelude::*;

use crate::protocol::{StunRequestView, WireplugStunRequest, WireplugStunResult};
use crate::wire::{enc_stun_request, encode_stun_request};

verus! {

use vstd::string::StrSliceExecFns;

/// An endpoint-independent mapping that rewrites the source port: the local
/// port and the external port the reflectors observed.
#[derive(Clone, Copy, Debug, PartialEq, Eq, Structural)]
pub struct PortMappingNat {
    pub listen_port: u16,
    pub observed_port: u16,
}

impl PortMappingNat {
    /// Pairs a local port with the externally observed port.
    pub fn new(listen_port: u16, observed_port: u16) -> (r: Self)
        ensures
            r.listen_port == listen_port,
            r.observed_port == observed_port,
    {
        Self { listen_port, observed_port }
    }
}

/// What the classifier can conclude.
#[derive(Clone, Copy, Debug, PartialEq, Eq, Structural)]
pub enum NatKind {
    Easy,
    FixedPortMapping(PortMappingNat),
    Hard,
}

/// The classifier's failure: the two reflectors disagreed on whether the
/// source port was preserved.
#[derive(Clone, Copy, Debug, PartialEq, Eq, Structural)]
pub enum NatError {
    InconsistentNat,
}

/// The classification table: agreement on the declared port means an easy NAT; two
/// equal rewritten ports mean a fixed port mapping; two different rewritten
/// ports mean a destination-dependent NAT; a mixed pair is a protocol error.
pub open spec fn spec_classification(
    local_port: u16,
    first: WireplugStunResult,
    second: WireplugStunResult,
) -> Result<NatKind, NatError> {
    match (first, second) {
        (WireplugStunResult::SamePort, WireplugStunResult::SamePort) => Ok(NatKind::Easy),
        (WireplugStunResult::DifferentPort(p1), WireplugStunResult::DifferentPort(p2)) => if p1
            == p2 {
            Ok(
                NatKind::FixedPortMapping(
                    PortMappingNat { listen_port: local_port, observed_port: p1 },
                ),
            )
        } else {
            Ok(NatKind::Hard)
        },
        _ => Err(NatError::InconsistentNat),
    }
}

/// Classifies the NAT from the two probe results.
pub fn detect_port_mapping(
    local_port: u16,
    first: WireplugStunResult,
    second: WireplugStunResult,
) -> (r: Result<NatKind, NatError>)
    ensures
        r == spec_classification(local_port, first, second),
{
    match (first, second) {
        (WireplugStunResult::SamePort, WireplugStunResult::SamePort) => Ok(NatKind::Easy),
        (WireplugStunResult::DifferentPort(p1), WireplugStunResult::DifferentPort(p2)) => {
            if p1 == p2 {
                Ok(NatKind::FixedPortMapping(PortMappingNat::new(local_port, p1)))
            } else {
                Ok(NatKind::Hard)
            }
        },
        _ => Err(NatError::InconsistentNat),
    }
}

/// The port to announce after classification: the local port behind an easy
/// NAT, the observed port behind a fixed mapping, nothing otherwise.
pub open spec fn spec_observed_port(
    local_port: u16,
    first: WireplugStunResult,
    second: WireplugStunResult,
) -> Option<u16> {
    match spec_classification(local_port, first, second) {
        Ok(NatKind::Easy) => Some(local_port),
        Ok(NatKind::FixedPortMapping(m)) => Some(m.observed_port),
        Ok(NatKind::Hard) => None,
        Err(_) => None,
    }
}

/// Reduces the two probe results to the port to announce, or to nothing
/// when the NAT defeats traversal or the probes disagreed.
pub fn get_observed_port(
    port: u16,
    first: WireplugStunResult,
    second: WireplugStunResult,
) -> (r: Option<u16>)
    ensures
        r == spec_observed_port(port, first, second),
{
    match detect_port_mapping(port, first, second) {
        Ok(NatKind::Easy) => Some(port),
        Ok(NatKind::FixedPortMapping(mapping)) => Some(mapping.observed_port),
        Ok(NatKind::Hard) => None,
        Err(_) => None,
    }
}

/// The classification table is total and deterministic: every probe-result
/// pair falls under exactly one row, and what it concludes is a function of
/// the pair.
pub proof fn lemma_nat_classification_total(
    local_port: u16,
    first: WireplugStunResult,
    second: WireplugStunResult,
)
    ensures
        (first == WireplugStunResult::SamePort && second == WireplugStunResult::SamePort)
            <==> spec_classification(local_port, first, second) == Ok::<NatKind, NatError>(NatKind::Easy),
        (first matches WireplugStunResult::DifferentPort(p1) && second
            matches WireplugStunResult::DifferentPort(p2) && p1 == p2) <==> (spec_classification(
            local_port,
            first,
            second,
        ) matches Ok(NatKind::FixedPortMapping(m)) && m.listen_port == local_port
            && second == WireplugStunResult::DifferentPort(m.observed_port)),
        (first matches WireplugStunResult::DifferentPort(p1) && second
            matches WireplugStunResult::DifferentPort(p2) && p1 != p2) <==> spec_classification(
            local_port,
            first,
            second,
        ) == Ok::<NatKind, NatError>(NatKind::Hard),
        ((first == WireplugStunResult::SamePort) != (second == WireplugStunResult::SamePort))
            <==> spec_classification(local_port, first, second) == Err::<NatKind, NatError>(
            NatError::InconsistentNat,
        ),
{
}

/// Builds the datagram of one reflector probe declaring the local port.
pub fn build_stun_request(local_port: u16) -> (r: Vec<u8>)
    ensures
        r@ == enc_stun_request(
            StunRequestView {
                proto: crate::protocol::WIREPLUG_PROTOCOL_VERSION@,
                port: local_port,
            },
        ),
{
    let request = WireplugStunRequest::new(local_port);
    proof {
        reveal_strlit("Wireplug_V1");
        assert(request@.proto.len() == 11);
        crate::codec::lemma_enc_chars_len(request@.proto);
    }
    match encode_stun_request(&request) {
        Some(b) => b,
        None => {
            proof {
                assert(false);
            }
            Vec::new()
        },
    }
}

} // verus!
