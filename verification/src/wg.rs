//! The interface controller's decisions: which peers count as inactive,
//! which endpoint updates a response earns, and the peer settings a
//! configuration applies.

use vstd::prelude::*;

use crate::config::Peer;
use crate::protocol::{EndpointView, IpAddress, SockAddr, WireplugEndpoint};
use crate::tracker::PeersActivity;
use crate::{COMMON_PKA, LAST_HANDSHAKE_MAX};

verus! {

/// What the controller reads off one kernel peer: its key, its RX-byte
/// counter, whether it ever completed a handshake and how many seconds ago,
/// and its keepalive setting (zero when unset).
#[derive(Debug)]
pub struct PeerSample {
    pub public_key: String,
    pub rx_bytes: u64,
    pub has_handshake: bool,
    pub handshake_age_secs: u64,
    pub persistent_keepalive: u16,
}

// ---------------------------------------------------------------------------
// Inactivity by handshake age
// ---------------------------------------------------------------------------
/// The age beyond which a peer counts as inactive: its keepalive, or the
/// handshake bound, whichever is larger.
pub open spec fn spec_hs_threshold(pka: u16) -> u64 {
    if pka as u64 > LAST_HANDSHAKE_MAX {
        pka as u64
    } else {
        LAST_HANDSHAKE_MAX
    }
}

/// A peer is inactive by handshake when it never completed one, or its last
/// one is older than the threshold.
pub open spec fn spec_hs_inactive(p: PeerSample) -> bool {
    !p.has_handshake || p.handshake_age_secs > spec_hs_threshold(p.persistent_keepalive)
}

/// The keys of the handshake-inactive peers, in order.
pub open spec fn spec_inactive_by_handshake(l: Seq<PeerSample>) -> Seq<Seq<char>>
    decreases l.len(),
{
    if l.len() == 0 {
        Seq::empty()
    } else {
        let rest = spec_inactive_by_handshake(l.drop_last());
        if spec_hs_inactive(l.last()) {
            rest.push(l.last().public_key@)
        } else {
            rest
        }
    }
}

/// Returns the peers with no handshake yet, or whose last handshake is
/// older than the larger of their keepalive and the handshake bound.
pub fn get_inactive_peers_by_last_handshake(samples: &Vec<PeerSample>) -> (r: Vec<String>)
    ensures
        r.deep_view() == spec_inactive_by_handshake(samples@),
{
    let mut acc: Vec<String> = Vec::new();
    let n = samples.len();
    let mut i: usize = 0;
    proof {
        assert(acc.deep_view() =~= spec_inactive_by_handshake(samples@.take(0)));
    }
    while i < n
        invariant
            n == samples@.len(),
            0 <= i <= n,
            acc.deep_view() == spec_inactive_by_handshake(samples@.take(i as int)),
        decreases n - i,
    {
        let ghost accv = acc.deep_view();
        proof {
            assert(samples@.take(i + 1).drop_last() =~= samples@.take(i as int));
            assert(samples@.take(i + 1).last() == samples@[i as int]);
        }
        let p = &samples[i];
        let pka = p.persistent_keepalive as u64;
        let threshold = if pka > LAST_HANDSHAKE_MAX {
            pka
        } else {
            LAST_HANDSHAKE_MAX
        };
        if !p.has_handshake || p.handshake_age_secs > threshold {
            acc.push(p.public_key.clone());
            proof {
                assert(acc.deep_view() =~= accv.push(samples@[i as int].public_key@));
            }
        }
        i += 1;
    }
    proof {
        assert(samples@.take(n as int) =~= samples@);
    }
    acc
}

// ---------------------------------------------------------------------------
// Inactivity by RX delta
// ---------------------------------------------------------------------------
/// One pass of the RX scan: the tracker map after the samples, and the keys
/// found inactive. A peer without a handshake is inactive and its counter
/// is not consulted; otherwise the tracker decides and stores the counter.
pub open spec fn spec_rx_scan(l: Seq<PeerSample>, m: Map<Seq<char>, u64>) -> (
    Map<Seq<char>, u64>,
    Seq<Seq<char>>,
)
    decreases l.len(),
{
    if l.len() == 0 {
        (m, Seq::empty())
    } else {
        let r = spec_rx_scan(l.drop_last(), m);
        let p = l.last();
        if !p.has_handshake {
            (r.0, r.1.push(p.public_key@))
        } else {
            let active = !r.0.contains_key(p.public_key@) || p.rx_bytes > r.0[p.public_key@];
            let m2 = r.0.insert(p.public_key@, p.rx_bytes);
            if active {
                (m2, r.1)
            } else {
                (m2, r.1.push(p.public_key@))
            }
        }
    }
}

/// Returns the peers with no handshake yet, or whose RX counter did not
/// advance since the tracker's last sample; the tracker keeps the latest
/// counters.
pub fn get_inactive_peers_by_rx(samples: &Vec<PeerSample>, tracker: &mut PeersActivity) -> (r: Vec<
    String,
>)
    requires
        old(tracker).inv(),
    ensures
        final(tracker).inv(),
        final(tracker)@ == spec_rx_scan(samples@, old(tracker)@).0,
        r.deep_view() == spec_rx_scan(samples@, old(tracker)@).1,
{
    let mut acc: Vec<String> = Vec::new();
    let n = samples.len();
    let mut i: usize = 0;
    proof {
        assert(acc.deep_view() =~= spec_rx_scan(samples@.take(0), old(tracker)@).1);
        assert(tracker@ =~= spec_rx_scan(samples@.take(0), old(tracker)@).0);
    }
    while i < n
        invariant
            n == samples@.len(),
            0 <= i <= n,
            tracker.inv(),
            tracker@ == spec_rx_scan(samples@.take(i as int), old(tracker)@).0,
            acc.deep_view() == spec_rx_scan(samples@.take(i as int), old(tracker)@).1,
        decreases n - i,
    {
        let ghost accv = acc.deep_view();
        proof {
            assert(samples@.take(i + 1).drop_last() =~= samples@.take(i as int));
            assert(samples@.take(i + 1).last() == samples@[i as int]);
        }
        let p = &samples[i];
        if !p.has_handshake {
            acc.push(p.public_key.clone());
            proof {
                assert(acc.deep_view() =~= accv.push(samples@[i as int].public_key@));
            }
        } else {
            let active = tracker.update(&p.public_key, p.rx_bytes);
            if !active {
                acc.push(p.public_key.clone());
                proof {
                    assert(acc.deep_view() =~= accv.push(samples@[i as int].public_key@));
                }
            }
        }
        i += 1;
    }
    proof {
        assert(samples@.take(n as int) =~= samples@);
    }
    acc
}

/// The tracker map after a plain initialisation pass over the samples.
pub open spec fn spec_init_scan(l: Seq<PeerSample>, m: Map<Seq<char>, u64>) -> Map<Seq<char>, u64>
    decreases l.len(),
{
    if l.len() == 0 {
        m
    } else {
        spec_init_scan(l.drop_last(), m).insert(l.last().public_key@, l.last().rx_bytes)
    }
}

/// Seeds the tracker with the current counters of every peer.
pub fn init_peers_activity(samples: &Vec<PeerSample>, tracker: &mut PeersActivity)
    requires
        old(tracker).inv(),
    ensures
        final(tracker).inv(),
        final(tracker)@ == spec_init_scan(samples@, old(tracker)@),
{
    let n = samples.len();
    let mut i: usize = 0;
    while i < n
        invariant
            n == samples@.len(),
            0 <= i <= n,
            tracker.inv(),
            tracker@ == spec_init_scan(samples@.take(i as int), old(tracker)@),
        decreases n - i,
    {
        proof {
            assert(samples@.take(i + 1).drop_last() =~= samples@.take(i as int));
            assert(samples@.take(i + 1).last() == samples@[i as int]);
        }
        let p = &samples[i];
        let _ = tracker.update(&p.public_key, p.rx_bytes);
        i += 1;
    }
    proof {
        assert(samples@.take(n as int) =~= samples@);
    }
}

/// Returns every peer's key, in order; what a WAN change makes the loop
/// re-announce.
pub fn get_all_peers(samples: &Vec<PeerSample>) -> (r: Vec<String>)
    ensures
        r.deep_view() == samples@.map_values(|p: PeerSample| p.public_key@),
{
    let mut acc: Vec<String> = Vec::new();
    let n = samples.len();
    let mut i: usize = 0;
    proof {
        assert(acc.deep_view() =~= samples@.take(0).map_values(|p: PeerSample| p.public_key@));
    }
    while i < n
        invariant
            n == samples@.len(),
            0 <= i <= n,
            acc.deep_view() == samples@.take(i as int).map_values(
                |p: PeerSample| p.public_key@,
            ),
        decreases n - i,
    {
        let ghost accv = acc.deep_view();
        acc.push(samples[i].public_key.clone());
        proof {
            assert(acc.deep_view() =~= accv.push(samples@[i as int].public_key@));
            assert(samples@.take(i + 1).map_values(|p: PeerSample| p.public_key@) =~= accv.push(
                samples@[i as int].public_key@,
            ));
        }
        i += 1;
    }
    proof {
        assert(samples@.take(n as int) =~= samples@);
    }
    acc
}

// ---------------------------------------------------------------------------
// Endpoint updates from a response
// ---------------------------------------------------------------------------
/// The address part of a CIDR string, when it parses.
pub uninterp spec fn cidr_addr_of(s: Seq<char>) -> Option<IpAddress>;

/// Relies on `ipnet::IpNet::from_str` and `IpNet::addr`: the address part
/// of a CIDR string; what it yields depends on the characters alone.
#[verifier::external_body]
fn parse_cidr_addr(s: &String) -> (r: Option<IpAddress>)
    ensures
        r == cidr_addr_of(s@),
{
    match s.as_str().parse::<ipnet::IpNet>() {
        Ok(ipnet::IpNet::V4(n)) => Some(IpAddress::V4(u32::from(n.addr()))),
        Ok(ipnet::IpNet::V6(n)) => Some(IpAddress::V6(u128::from(n.addr()))),
        Err(_) => None,
    }
}

/// One endpoint update the kernel is to apply.
#[derive(Debug, PartialEq, Eq)]
pub struct PeerUpdate {
    pub public_key: String,
    pub endpoint: SockAddr,
}

impl DeepView for PeerUpdate {
    type V = (Seq<char>, SockAddr);

    open spec fn deep_view(&self) -> (Seq<char>, SockAddr) {
        (self.public_key@, self.endpoint)
    }
}

/// Why an endpoint list is refused.
#[derive(Clone, Copy, Debug, PartialEq, Eq, Structural)]
pub enum UpdatePeersError {
    /// A `LocalNetwork` entry's first LAN address is not a CIDR.
    BadLanAddr,
}

/// What one endpoint asks for: nothing for `Unknown` or an empty LAN list,
/// the first LAN address with the recorded listen port for `LocalNetwork`,
/// the observed address verbatim for `RemoteNetwork`.
pub open spec fn spec_plan_one(e: EndpointView) -> Result<Option<SockAddr>, UpdatePeersError> {
    match e {
        EndpointView::Unknown => Ok(None),
        EndpointView::LocalNetwork { lan_addrs, listen_port } => if lan_addrs.len() == 0 {
            Ok(None)
        } else {
            match cidr_addr_of(lan_addrs[0]) {
                Some(ip) => Ok(Some(SockAddr { ip, port: listen_port })),
                None => Err(UpdatePeersError::BadLanAddr),
            }
        },
        EndpointView::RemoteNetwork(sa) => Ok(Some(sa)),
    }
}

/// The updates a whole endpoint list asks for, in order, or the first
/// refusal.
pub open spec fn spec_plan(l: Seq<(Seq<char>, EndpointView)>) -> Result<
    Seq<(Seq<char>, SockAddr)>,
    UpdatePeersError,
>
    decreases l.len(),
{
    if l.len() == 0 {
        Ok(Seq::empty())
    } else {
        match spec_plan(l.drop_last()) {
            Err(e) => Err(e),
            Ok(pl) => match spec_plan_one(l.last().1) {
                Err(e) => Err(e),
                Ok(None) => Ok(pl),
                Ok(Some(sa)) => Ok(pl.push((l.last().0, sa))),
            },
        }
    }
}

/// Turns a response's endpoint list into the kernel updates to apply: an
/// `Unknown` entry and a `LocalNetwork` entry without LAN addresses are
/// skipped; a `LocalNetwork` entry is addressed at its first LAN address
/// with its recorded listen port; a `RemoteNetwork` entry is taken
/// verbatim; an unparseable LAN address refuses the whole list.
pub fn update_peers(peer_endpoints: &Vec<(String, WireplugEndpoint)>) -> (r: Result<
    Vec<PeerUpdate>,
    UpdatePeersError,
>)
    ensures
        (match r {
            Ok(plan) => spec_plan(peer_endpoints.deep_view()) == Ok::<
                Seq<(Seq<char>, SockAddr)>,
                UpdatePeersError,
            >(plan.deep_view()),
            Err(e) => spec_plan(peer_endpoints.deep_view()) == Err::<
                Seq<(Seq<char>, SockAddr)>,
                UpdatePeersError,
            >(e),
        }),
{
    let ghost lv = peer_endpoints.deep_view();
    let mut plan: Vec<PeerUpdate> = Vec::new();
    let n = peer_endpoints.len();
    let mut i: usize = 0;
    proof {
        assert(plan.deep_view() =~= Seq::<(Seq<char>, SockAddr)>::empty());
    }
    while i < n
        invariant
            n == peer_endpoints@.len(),
            lv == peer_endpoints.deep_view(),
            0 <= i <= n,
            spec_plan(lv.take(i as int)) == Ok::<Seq<(Seq<char>, SockAddr)>, UpdatePeersError>(
                plan.deep_view(),
            ),
        decreases n - i,
    {
        let ghost planv = plan.deep_view();
        proof {
            assert(lv.take(i + 1).drop_last() =~= lv.take(i as int));
            assert(lv.take(i + 1).last() == lv[i as int]);
            assert(lv[i as int] == (peer_endpoints@[i as int].0@, peer_endpoints@[i as int].1@));
        }
        let entry = &peer_endpoints[i];
        match &entry.1 {
            WireplugEndpoint::Unknown => {},
            WireplugEndpoint::LocalNetwork { lan_addrs, listen_port } => {
                if lan_addrs.len() > 0 {
                    proof {
                        assert(lan_addrs.deep_view()[0] == lan_addrs@[0]@);
                    }
                    match parse_cidr_addr(&lan_addrs[0]) {
                        Some(ip) => {
                            let up = PeerUpdate {
                                public_key: entry.0.clone(),
                                endpoint: SockAddr { ip, port: *listen_port },
                            };
                            plan.push(up);
                            proof {
                                assert(plan.deep_view() =~= planv.push(
                                    (entry.0@, SockAddr { ip, port: *listen_port }),
                                ));
                            }
                        },
                        None => {
                            proof {
                                assert(spec_plan(lv.take(i + 1)) == Err::<
                                    Seq<(Seq<char>, SockAddr)>,
                                    UpdatePeersError,
                                >(UpdatePeersError::BadLanAddr));
                                lemma_plan_err_persists(lv, i + 1);
                            }
                            return Err(UpdatePeersError::BadLanAddr);
                        },
                    }
                }
            },
            WireplugEndpoint::RemoteNetwork(sa) => {
                let up = PeerUpdate { public_key: entry.0.clone(), endpoint: *sa };
                plan.push(up);
                proof {
                    assert(plan.deep_view() =~= planv.push((entry.0@, *sa)));
                }
            },
        }
        i += 1;
    }
    proof {
        assert(lv.take(n as int) =~= lv);
    }
    Ok(plan)
}

/// Once a prefix of the list is refused, the whole list is refused with
/// the same error.
pub proof fn lemma_plan_err_persists(l: Seq<(Seq<char>, EndpointView)>, j: int)
    requires
        0 <= j <= l.len(),
        spec_plan(l.take(j)) is Err,
    ensures
        spec_plan(l) == spec_plan(l.take(j)),
    decreases l.len() - j,
{
    if j < l.len() {
        assert(l.take(j + 1).drop_last() =~= l.take(j));
        lemma_plan_err_persists(l, j + 1);
    } else {
        assert(l.take(j) =~= l);
    }
}

/// Whether an endpoint earns an update: it is `RemoteNetwork`, or
/// `LocalNetwork` with at least one LAN address.
pub open spec fn spec_updatable(e: EndpointView) -> bool {
    match e {
        EndpointView::Unknown => false,
        EndpointView::LocalNetwork { lan_addrs, .. } => lan_addrs.len() > 0,
        EndpointView::RemoteNetwork(_) => true,
    }
}

/// The keys of the updatable entries, in order.
pub open spec fn spec_updatable_keys(l: Seq<(Seq<char>, EndpointView)>) -> Seq<Seq<char>>
    decreases l.len(),
{
    if l.len() == 0 {
        Seq::empty()
    } else {
        let rest = spec_updatable_keys(l.drop_last());
        if spec_updatable(l.last().1) {
            rest.push(l.last().0)
        } else {
            rest
        }
    }
}

/// When the whole list is accepted, the planned keys are exactly those of
/// the entries whose endpoint is `RemoteNetwork`, or `LocalNetwork` with a
/// non-empty LAN list, in their order.
pub proof fn lemma_update_peers_exact_subset(l: Seq<(Seq<char>, EndpointView)>)
    requires
        spec_plan(l) is Ok,
    ensures
        (spec_plan(l)->Ok_0).map_values(|u: (Seq<char>, SockAddr)| u.0) == spec_updatable_keys(l),
    decreases l.len(),
{
    if l.len() == 0 {
        assert((spec_plan(l)->Ok_0).map_values(|u: (Seq<char>, SockAddr)| u.0)
            =~= spec_updatable_keys(l));
    } else {
        lemma_update_peers_exact_subset(l.drop_last());
        let pl = spec_plan(l.drop_last())->Ok_0;
        match spec_plan_one(l.last().1) {
            Err(_) => {
                assert(false);
            },
            Ok(None) => {
                assert(!spec_updatable(l.last().1));
            },
            Ok(Some(sa)) => {
                assert(spec_updatable(l.last().1));
                assert(pl.push((l.last().0, sa)).map_values(|u: (Seq<char>, SockAddr)| u.0)
                    =~= pl.map_values(|u: (Seq<char>, SockAddr)| u.0).push(l.last().0));
            },
        }
    }
}

// ---------------------------------------------------------------------------
// Peer settings a configuration applies
// ---------------------------------------------------------------------------
/// The settings applied to one configured peer: its key, its routed
/// address, and the mandatory keepalive.
#[derive(Debug, PartialEq, Eq)]
pub struct PeerConfigPlan {
    pub public_key: String,
    pub allowed_ip: String,
    pub keepalive: u16,
}

/// Lays out the settings for every configured peer: each one keeps its key
/// and routed address and is given the mandatory keepalive.
pub fn configure_peer_plans(peers: &Vec<Peer>) -> (r: Vec<PeerConfigPlan>)
    ensures
        r@.len() == peers@.len(),
        forall|i: int|
            0 <= i < r@.len() ==> {
                &&& (#[trigger] r@[i]).keepalive == COMMON_PKA
                &&& r@[i].public_key@ == peers@[i].public_key@
                &&& r@[i].allowed_ip@ == peers@[i].allowed_ips@
            },
{
    let mut acc: Vec<PeerConfigPlan> = Vec::new();
    let n = peers.len();
    let mut i: usize = 0;
    while i < n
        invariant
            n == peers@.len(),
            0 <= i <= n,
            acc@.len() == i,
            forall|x: int|
                0 <= x < i ==> {
                    &&& (#[trigger] acc@[x]).keepalive == COMMON_PKA
                    &&& acc@[x].public_key@ == peers@[x].public_key@
                    &&& acc@[x].allowed_ip@ == peers@[x].allowed_ips@
                },
        decreases n - i,
    {
        let p = &peers[i];
        acc.push(
            PeerConfigPlan {
                public_key: p.public_key.clone(),
                allowed_ip: p.allowed_ips.clone(),
                keepalive: COMMON_PKA,
            },
        );
        i += 1;
    }
    acc
}

} // verus!
