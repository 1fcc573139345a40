//! The control loop's decisions: what one cycle does with the network
//! status, what a probe outcome commits, and which peers stay on the
//! inactive list after an announcement.

use vstd::prelude::*;

use crate::natclass::spec_observed_port;
use crate::netmon::NetStatus;
use crate::protocol::WireplugStunResult;

verus! {

/// What a cycle does after reading the network status.
#[derive(Clone, Copy, Debug, PartialEq, Eq, Structural)]
pub enum CycleCommand {
    /// Offline or behind a hard NAT: sleep briefly and try again.
    Backoff,
    /// The WAN address is new: classify the NAT from this fresh local port.
    ProbeNat { local_port: u16 },
    /// Commit this listen port to the kernel and re-announce every peer.
    CommitPort { port: u16 },
    /// Nothing changed: proceed to the inactivity check.
    Continue,
}

/// The cycle decision table over the network status.
pub open spec fn spec_cycle_decision(
    status: NetStatus,
    traverse_nat: bool,
    fresh_port: u16,
) -> CycleCommand {
    match status {
        NetStatus::Offline => CycleCommand::Backoff,
        NetStatus::HardNat => CycleCommand::Backoff,
        NetStatus::Online => CycleCommand::Continue,
        NetStatus::ChangedToPrev => CycleCommand::Continue,
        NetStatus::ChangedToNew => if traverse_nat {
            CycleCommand::ProbeNat { local_port: fresh_port }
        } else {
            CycleCommand::CommitPort { port: fresh_port }
        },
    }
}

/// Decides what one cycle does: back off while offline or stuck behind a
/// hard NAT, probe or commit a fresh port after a WAN change, and otherwise
/// go on to the inactivity check.
pub fn cycle_decision(status: NetStatus, traverse_nat: bool, fresh_port: u16) -> (c: CycleCommand)
    requires
        fresh_port >= 1024,
    ensures
        c == spec_cycle_decision(status, traverse_nat, fresh_port),
{
    match status {
        NetStatus::Offline | NetStatus::HardNat => CycleCommand::Backoff,
        NetStatus::Online | NetStatus::ChangedToPrev => CycleCommand::Continue,
        NetStatus::ChangedToNew => {
            if traverse_nat {
                CycleCommand::ProbeNat { local_port: fresh_port }
            } else {
                CycleCommand::CommitPort { port: fresh_port }
            }
        },
    }
}

/// What the probe outcome commits.
#[derive(Clone, Copy, Debug, PartialEq, Eq, Structural)]
pub enum ProbeDecision {
    /// The NAT is destination-dependent or the probes disagreed: remember
    /// the hard NAT and back off.
    SetHardNat,
    /// Announce through this port.
    CommitPort { port: u16 },
}

/// Reduces the two probe results to the committed decision: the port that
/// classification yields, or the sticky hard-NAT flag when it yields none.
pub fn probe_decision(
    local_port: u16,
    first: WireplugStunResult,
    second: WireplugStunResult,
) -> (d: ProbeDecision)
    ensures
        d == (match spec_observed_port(local_port, first, second) {
            Some(p) => ProbeDecision::CommitPort { port: p },
            None => ProbeDecision::SetHardNat,
        }),
{
    match crate::natclass::get_observed_port(local_port, first, second) {
        Some(p) => ProbeDecision::CommitPort { port: p },
        None => ProbeDecision::SetHardNat,
    }
}

/// The keys of `peers` that are not in `acked`, in order.
pub open spec fn spec_retain_unacked(peers: Seq<Seq<char>>, acked: Seq<Seq<char>>) -> Seq<
    Seq<char>,
>
    decreases peers.len(),
{
    if peers.len() == 0 {
        peers
    } else {
        let rest = spec_retain_unacked(peers.drop_last(), acked);
        if acked.contains(peers.last()) {
            rest
        } else {
            rest.push(peers.last())
        }
    }
}

/// Whether a list of keys carries `key`.
fn contains_key(l: &Vec<String>, key: &String) -> (r: bool)
    ensures
        r == l.deep_view().contains(key@),
{
    let n = l.len();
    let mut j: usize = 0;
    while j < n
        invariant
            n == l@.len(),
            0 <= j <= n,
            forall|x: int| 0 <= x < j ==> (#[trigger] l.deep_view()[x]) != key@,
        decreases n - j,
    {
        if l[j].eq(key) {
            proof {
                assert(l.deep_view()[j as int] == key@);
            }
            return true;
        }
        proof {
            assert(l.deep_view()[j as int] == l@[j as int]@);
        }
        j += 1;
    }
    proof {
        if l.deep_view().contains(key@) {
            let w = choose|w: int|
                0 <= w < l.deep_view().len() && (#[trigger] l.deep_view()[w]) == key@;
        }
    }
    false
}

/// After a successful announcement, keeps exactly the inactive peers whose
/// endpoints were not updated, in their old order.
pub fn retain_unacked(peers: &Vec<String>, acked: &Vec<String>) -> (r: Vec<String>)
    ensures
        r.deep_view() == spec_retain_unacked(peers.deep_view(), acked.deep_view()),
{
    let mut kept: Vec<String> = Vec::new();
    let n = peers.len();
    let mut i: usize = 0;
    proof {
        assert(kept.deep_view() =~= spec_retain_unacked(
            peers.deep_view().take(0),
            acked.deep_view(),
        ));
    }
    while i < n
        invariant
            n == peers@.len(),
            0 <= i <= n,
            kept.deep_view() == spec_retain_unacked(
                peers.deep_view().take(i as int),
                acked.deep_view(),
            ),
        decreases n - i,
    {
        let ghost pv = peers.deep_view();
        let ghost keptv = kept.deep_view();
        proof {
            assert(pv.take(i + 1).drop_last() =~= pv.take(i as int));
            assert(pv.take(i + 1).last() == pv[i as int]);
            assert(pv[i as int] == peers@[i as int]@);
        }
        let hit = contains_key(acked, &peers[i]);
        if !hit {
            kept.push(peers[i].clone());
            proof {
                assert(kept.deep_view() =~= keptv.push(pv[i as int]));
            }
        }
        i += 1;
    }
    proof {
        assert(peers.deep_view().take(n as int) =~= peers.deep_view());
    }
    kept
}

} // verus!
