//! Peer discovery and NAT traversal for a mesh of WireGuard peers.
//!
//! The crate holds the verified core of the system: the wire codec and its
//! framing, the protocol data model with its validity rules, the NAT
//! classifier, the network state monitor, the peer activity
//! tracker, the endpoint update planner, and the rendezvous storage with
//! its TTL eviction and the per-announcement handler.

use vstd::prelude::*;

pub mod codec;
pub mod config;
pub mod daemon;
pub mod handler;
pub mod natclass;
pub mod netmon;
pub mod protocol;
pub mod stun;
pub mod storage;
pub mod tracker;
pub mod wg;
pub mod wire;

verus! {

/// UDP port of the STUN-like reflector service.
pub const WIREPLUG_STUN_PORT: u16 = 4455;

/// Hard upper bound on the size of any framed message, in bytes.
pub const MAX_MESSAGE_SIZE: usize = 4096;

/// Seconds a rendezvous record stays readable after its insertion.
pub const RECORD_TTL: u64 = 3600;

/// Persistent keepalive, in seconds, applied to every WireGuard peer.
pub const COMMON_PKA: u16 = 25;

/// Seconds without a handshake after which a peer counts as inactive.
pub const LAST_HANDSHAKE_MAX: u64 = 180;

/// Upper bound on announcement attempts within one control-loop cycle.
pub const MAX_ANNOUNCE_RETRIES: usize = 3;

/// Seconds between two rounds of the control loop.
pub const MONITORING_INTERVAL: u64 = 10;

} // verus!
