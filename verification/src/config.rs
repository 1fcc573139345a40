//! The client's interface configuration: the data the daemon is started
//! with, and the example it can generate.

use vstd::prelude::*;

use crate::protocol::spec_valid_wgkey;

verus! {

use vstd::string::StringExecFns;

/// One configured counterparty: its key and the address routed to it.
#[derive(Debug, PartialEq, Eq, Clone)]
pub struct Peer {
    pub public_key: String,
    pub allowed_ips: String,
}

/// The local interface: its address in CIDR form and its keypair.
#[derive(Debug, PartialEq, Eq, Clone)]
pub struct Interface {
    pub address: String,
    pub private_key: String,
    pub public_key: Option<String>,
}

/// A whole interface configuration.
#[derive(Debug, PartialEq, Eq, Clone)]
pub struct Config {
    pub interface: Interface,
    pub peers: Vec<Peer>,
}

/// Relies on `wireguard_control::Key::generate_private`, `Key::get_public`
/// and `Key::to_base64`: a fresh private key and its public counterpart,
/// both rendered as standard base64 of the 32 raw bytes, which is 44
/// characters from the base64 alphabet.
#[verifier::external_body]
fn generate_keypair_b64() -> (r: (String, String))
    ensures
        spec_valid_wgkey(r.0@),
        spec_valid_wgkey(r.1@),
{
    let private = wireguard_control::Key::generate_private();
    let public = private.get_public();
    (private.to_base64(), public.to_base64())
}

impl Peer {
    /// The placeholder peer of a generated configuration.
    pub fn new_example() -> (r: Self)
        ensures
            r.public_key@ == "AAAAAAAAAAAAAAAAAAAAAAAAAAAAAAAA"@,
            r.allowed_ips@ == "10.0.0.2"@,
    {
        Self {
            public_key: String::from_str("AAAAAAAAAAAAAAAAAAAAAAAAAAAAAAAA"),
            allowed_ips: String::from_str("10.0.0.2"),
        }
    }
}

impl Interface {
    /// An example interface around a freshly generated keypair.
    pub fn new_example_with_random_key() -> (r: Self)
        ensures
            r.address@ == "10.0.0.1/24"@,
            spec_valid_wgkey(r.private_key@),
            r.public_key matches Some(k) && spec_valid_wgkey(k@),
    {
        let (private_key, public_key) = generate_keypair_b64();
        Self {
            address: String::from_str("10.0.0.1/24"),
            private_key,
            public_key: Some(public_key),
        }
    }
}

impl Config {
    /// An example configuration around a freshly generated keypair, with
    /// one placeholder peer.
    pub fn new_example_with_random_key() -> (r: Self)
        ensures
            r.interface.address@ == "10.0.0.1/24"@,
            spec_valid_wgkey(r.interface.private_key@),
            r.interface.public_key matches Some(k) && spec_valid_wgkey(k@),
            r.peers@.len() == 1,
            r.peers@[0].public_key@ == "AAAAAAAAAAAAAAAAAAAAAAAAAAAAAAAA"@,
            r.peers@[0].allowed_ips@ == "10.0.0.2"@,
    {
        let mut peers: Vec<Peer> = Vec::new();
        peers.push(Peer::new_example());
        Self { interface: Interface::new_example_with_random_key(), peers }
    }
}

} // verus!
