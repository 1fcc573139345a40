//! The rendezvous handler: what the server does with one decoded
//! announcement, and the same-WAN law that follows from it.

use vstd::prelude::*;

use crate::protocol::{
    clone_opt_strings, lemma_lookup_has_key, lemma_lookup_push, spec_lookup_endpoint,
    spec_valid_announcement, AnnouncementView, EndpointView, IpAddress, SockAddr,
    WireplugAnnouncement, WireplugEndpoint, WireplugResponse, WIREPLUG_PROTOCOL_VERSION,
};
use crate::protocol::clone_strings;
use crate::storage::{spec_fresh, Record, RecordView, Storage};
use crate::RECORD_TTL;

verus! {

/// The record that one announcement deposits: the announcer's source IP with
/// its declared listen port, its LAN addresses, and the arrival time.
pub open spec fn spec_announcement_record(
    a: AnnouncementView,
    source_ip: IpAddress,
    now: u64,
) -> RecordView {
    RecordView {
        wan_addr: SockAddr { ip: source_ip, port: a.listen_port },
        lan_addrs: a.lan_addrs,
        timestamp: now,
    }
}

/// The storage after one announcement: every directed edge from the
/// initiator to a requested peer now carries the announcement's record.
pub open spec fn store_all(
    m: Map<(Seq<char>, Seq<char>), RecordView>,
    init: Seq<char>,
    peers: Seq<Seq<char>>,
    rec: RecordView,
) -> Map<(Seq<char>, Seq<char>), RecordView> {
    Map::new(
        |k: (Seq<char>, Seq<char>)| m.contains_key(k) || (k.0 == init && peers.contains(k.1)),
        |k: (Seq<char>, Seq<char>)|
            if k.0 == init && peers.contains(k.1) {
                rec
            } else {
                m[k]
            },
    )
}

/// What the initiator learns about one peer: the reverse edge's record,
/// classified against the initiator's own source IP, and only within its TTL.
pub open spec fn spec_endpoint_for(
    m: Map<(Seq<char>, Seq<char>), RecordView>,
    source_ip: IpAddress,
    init: Seq<char>,
    peer: Seq<char>,
    now: u64,
) -> EndpointView {
    if m.contains_key((peer, init)) && spec_fresh(m[(peer, init)].timestamp, now) {
        let r = m[(peer, init)];
        if r.wan_addr.ip == source_ip {
            EndpointView::LocalNetwork {
                lan_addrs: (match r.lan_addrs {
                    Some(l) => l,
                    None => Seq::empty(),
                }),
                listen_port: r.wan_addr.port,
            }
        } else {
            EndpointView::RemoteNetwork(r.wan_addr)
        }
    } else {
        EndpointView::Unknown
    }
}

/// Handles one announcement: an invalid one is refused and changes nothing;
/// a valid one deposits its record on every requested edge and earns a
/// response that classifies every requested peer against the updated
/// storage.
pub fn process_announcement(
    storage: &mut Storage,
    source_ip: IpAddress,
    now: u64,
    a: &WireplugAnnouncement,
) -> (r: Option<WireplugResponse>)
    requires
        old(storage).inv(),
    ensures
        final(storage).inv(),
        !spec_valid_announcement(a@) ==> r is None && final(storage)@ == old(storage)@,
        spec_valid_announcement(a@) ==> {
            &&& final(storage)@ == store_all(
                old(storage)@,
                a@.initiator_pubkey,
                a@.peer_pubkeys,
                spec_announcement_record(a@, source_ip, now),
            )
            &&& (match r {
                Some(resp) => {
                    &&& resp@.proto == WIREPLUG_PROTOCOL_VERSION@
                    &&& forall|k: Seq<char>|
                        spec_lookup_endpoint(resp@.peer_endpoints, k) is Some
                            <==> a@.peer_pubkeys.contains(k)
                    &&& forall|k: Seq<char>|
                        a@.peer_pubkeys.contains(k)
                            ==> #[trigger] spec_lookup_endpoint(resp@.peer_endpoints, k) == Some(
                            spec_endpoint_for(
                                final(storage)@,
                                source_ip,
                                a@.initiator_pubkey,
                                k,
                                now,
                            ),
                        )
                },
                None => false,
            })
        },
{
    if !a.valid() {
        return None;
    }
    let ghost m0 = storage@;
    let ghost rec_spec = spec_announcement_record(a@, source_ip, now);
    let rec = Record {
        wan_addr: SockAddr { ip: source_ip, port: a.listen_port },
        lan_addrs: clone_opt_strings(&a.lan_addrs),
        timestamp: now,
    };
    proof {
        assert(rec@ == rec_spec);
    }
    let n = a.peer_pubkeys.len();
    let mut i: usize = 0;
    proof {
        assert(storage@ =~= store_all(m0, a@.initiator_pubkey, a@.peer_pubkeys.take(0), rec_spec));
    }
    while i < n
        invariant
            n == a.peer_pubkeys@.len(),
            0 <= i <= n,
            storage.inv(),
            rec@ == rec_spec,
            storage@ == store_all(
                m0,
                a@.initiator_pubkey,
                a@.peer_pubkeys.take(i as int),
                rec_spec,
            ),
        decreases n - i,
    {
        storage.insert(&a.initiator_pubkey, &a.peer_pubkeys[i], rec.clone());
        proof {
            let peers = a@.peer_pubkeys;
            assert(peers[i as int] == a.peer_pubkeys@[i as int]@);
            assert(peers.take(i + 1) =~= peers.take(i as int).push(peers[i as int]));
            assert forall|x: Seq<char>|
                #![trigger peers.take(i + 1).contains(x)]
                peers.take(i + 1).contains(x) <==> (peers.take(i as int).contains(x) || x
                    == peers[i as int]) by {
                if peers.take(i + 1).contains(x) {
                    let w = choose|w: int|
                        0 <= w < peers.take(i + 1).len() && (#[trigger] peers.take(i + 1)[w]) == x;
                    if w < i {
                        assert(peers.take(i as int)[w] == x);
                    }
                }
                if peers.take(i as int).contains(x) {
                    let w = choose|w: int|
                        0 <= w < peers.take(i as int).len() && (#[trigger] peers.take(i as int)[w]) == x;
                    assert(peers.take(i + 1)[w] == x);
                }
                if x == peers[i as int] {
                    assert(peers.take(i + 1)[i as int] == x);
                }
            }
            assert(storage@ =~= store_all(m0, a@.initiator_pubkey, peers.take(i + 1), rec_spec));
        }
        i += 1;
    }
    proof {
        assert(a@.peer_pubkeys.take(n as int) =~= a@.peer_pubkeys);
    }
    let ghost m1 = storage@;
    // The storage is complete; build the response against it.
    let mut pairs: Vec<(String, WireplugEndpoint)> = Vec::new();
    let mut j: usize = 0;
    while j < n
        invariant
            n == a.peer_pubkeys@.len(),
            0 <= j <= n,
            storage.inv(),
            storage@ == m1,
            forall|k: Seq<char>|
                spec_lookup_endpoint(pairs.deep_view(), k) is Some <==> a@.peer_pubkeys.take(
                    j as int,
                ).contains(k),
            forall|k: Seq<char>|
                a@.peer_pubkeys.take(j as int).contains(k)
                    ==> #[trigger] spec_lookup_endpoint(pairs.deep_view(), k) == Some(
                    spec_endpoint_for(m1, source_ip, a@.initiator_pubkey, k, now),
                ),
        decreases n - j,
    {
        let ghost peers = a@.peer_pubkeys;
        let ghost pairsv = pairs.deep_view();
        let peer = &a.peer_pubkeys[j];
        let already = contains_endpoint_key(&pairs, peer);
        if !already {
            let ep: WireplugEndpoint = match storage.get(peer, &a.initiator_pubkey, now) {
                None => WireplugEndpoint::Unknown,
                Some(found) => {
                    if found.wan_addr.ip == source_ip {
                        let lan = match &found.lan_addrs {
                            Some(l) => clone_strings(l),
                            None => Vec::new(),
                        };
                        proof {
                            assert(lan.deep_view() =~= (match found@.lan_addrs {
                                Some(l) => l,
                                None => Seq::<Seq<char>>::empty(),
                            }));
                        }
                        WireplugEndpoint::LocalNetwork {
                            lan_addrs: lan,
                            listen_port: found.wan_addr.port,
                        }
                    } else {
                        WireplugEndpoint::RemoteNetwork(found.wan_addr)
                    }
                },
            };
            proof {
                assert(ep@ == spec_endpoint_for(m1, source_ip, a@.initiator_pubkey, peer@, now));
            }
            pairs.push((peer.clone(), ep));
            proof {
                assert(pairs.deep_view() =~= pairsv.push((peer@, ep@)));
            }
        }
        proof {
            assert(peers.take(j + 1) =~= peers.take(j as int).push(peers[j as int]));
            assert forall|x: Seq<char>|
                #![trigger peers.take(j + 1).contains(x)]
                peers.take(j + 1).contains(x) <==> (peers.take(j as int).contains(x) || x
                    == peers[j as int]) by {
                if peers.take(j + 1).contains(x) {
                    let w = choose|w: int|
                        0 <= w < peers.take(j + 1).len() && (#[trigger] peers.take(j + 1)[w]) == x;
                    if w < j {
                        assert(peers.take(j as int)[w] == x);
                    }
                }
                if peers.take(j as int).contains(x) {
                    let w = choose|w: int|
                        0 <= w < peers.take(j as int).len() && (#[trigger] peers.take(j as int)[w]) == x;
                    assert(peers.take(j + 1)[w] == x);
                }
                if x == peers[j as int] {
                    assert(peers.take(j + 1)[j as int] == x);
                }
            }
            if !already {
                assert forall|k: Seq<char>|
                    #![trigger spec_lookup_endpoint(pairs.deep_view(), k)]
                    spec_lookup_endpoint(pairs.deep_view(), k) == (match spec_lookup_endpoint(
                    pairsv,
                    k,
                ) {
                    Some(e) => Some(e),
                    None => if peer@ == k {
                        Some(
                            spec_endpoint_for(m1, source_ip, a@.initiator_pubkey, peer@, now),
                        )
                    } else {
                        None
                    },
                }) by {
                    lemma_lookup_push(
                        pairsv,
                        (peer@, spec_endpoint_for(m1, source_ip, a@.initiator_pubkey, peer@, now)),
                        k,
                    );
                }
            }
        }
        j += 1;
    }
    proof {
        assert(a@.peer_pubkeys.take(n as int) =~= a@.peer_pubkeys);
    }
    Some(WireplugResponse::from_peer_endpoints(pairs))
}

/// Whether the endpoint list already carries an entry for `key`.
fn contains_endpoint_key(pairs: &Vec<(String, WireplugEndpoint)>, key: &String) -> (r: bool)
    ensures
        r == (spec_lookup_endpoint(pairs.deep_view(), key@) is Some),
{
    let n = pairs.len();
    let mut j: usize = 0;
    while j < n
        invariant
            n == pairs@.len(),
            0 <= j <= n,
            forall|x: int| 0 <= x < j ==> (#[trigger] pairs.deep_view()[x]).0 != key@,
        decreases n - j,
    {
        if pairs[j].0.eq(key) {
            proof {
                assert((pairs.deep_view()[j as int]).0 == key@);
                lemma_lookup_has_key(pairs.deep_view(), key@);
            }
            return true;
        }
        proof {
            assert((pairs.deep_view()[j as int]).0 == pairs@[j as int].0@);
        }
        j += 1;
    }
    proof {
        lemma_lookup_has_key(pairs.deep_view(), key@);
    }
    false
}

/// A read never classifies from a stale record: any endpoint other than
/// `Unknown` comes from a stored record whose timestamp lies within
/// `[now - RECORD_TTL, now]`.
pub proof fn lemma_no_stale_read(
    m: Map<(Seq<char>, Seq<char>), RecordView>,
    source_ip: IpAddress,
    init: Seq<char>,
    peer: Seq<char>,
    now: u64,
)
    ensures
        spec_endpoint_for(m, source_ip, init, peer, now) != EndpointView::Unknown ==> {
            &&& m.contains_key((peer, init))
            &&& spec_fresh(m[(peer, init)].timestamp, now)
            &&& m[(peer, init)].timestamp <= now
            &&& now - m[(peer, init)].timestamp <= RECORD_TTL
        },
{
}

/// Same-WAN classification: when two distinct peers announce one another
/// from the same source address within the TTL, the second announcement's
/// lookup of the first yields `LocalNetwork` with the first's declared LAN
/// addresses and listen port, and the first's next lookup of the second,
/// made while the second's record is fresh, does likewise.
pub proof fn lemma_same_wan_local_network(
    m0: Map<(Seq<char>, Seq<char>), RecordView>,
    ip: IpAddress,
    a: AnnouncementView,
    b: AnnouncementView,
    t1: u64,
    t2: u64,
    t3: u64,
)
    requires
        spec_valid_announcement(a),
        spec_valid_announcement(b),
        a.initiator_pubkey != b.initiator_pubkey,
        a.peer_pubkeys.contains(b.initiator_pubkey),
        b.peer_pubkeys.contains(a.initiator_pubkey),
        t1 <= t2 <= t3,
        t2 - t1 <= RECORD_TTL,
        t3 - t2 <= RECORD_TTL,
    ensures
        ({
            let m1 = store_all(
                m0,
                a.initiator_pubkey,
                a.peer_pubkeys,
                spec_announcement_record(a, ip, t1),
            );
            let m2 = store_all(
                m1,
                b.initiator_pubkey,
                b.peer_pubkeys,
                spec_announcement_record(b, ip, t2),
            );
            &&& spec_endpoint_for(m2, ip, b.initiator_pubkey, a.initiator_pubkey, t2)
                == (EndpointView::LocalNetwork {
                lan_addrs: (match a.lan_addrs {
                    Some(l) => l,
                    None => Seq::empty(),
                }),
                listen_port: a.listen_port,
            })
            &&& spec_endpoint_for(m2, ip, a.initiator_pubkey, b.initiator_pubkey, t3)
                == (EndpointView::LocalNetwork {
                lan_addrs: (match b.lan_addrs {
                    Some(l) => l,
                    None => Seq::empty(),
                }),
                listen_port: b.listen_port,
            })
        }),
{
    let m1 = store_all(m0, a.initiator_pubkey, a.peer_pubkeys, spec_announcement_record(a, ip, t1));
    let m2 = store_all(m1, b.initiator_pubkey, b.peer_pubkeys, spec_announcement_record(b, ip, t2));
    let ka = (a.initiator_pubkey, b.initiator_pubkey);
    let kb = (b.initiator_pubkey, a.initiator_pubkey);
    assert(m1.contains_key(ka));
    assert(m1[ka] == spec_announcement_record(a, ip, t1));
    assert(m2.contains_key(ka));
    assert(m2[ka] == spec_announcement_record(a, ip, t1));
    assert(m2.contains_key(kb));
    assert(m2[kb] == spec_announcement_record(b, ip, t2));
    assert(spec_fresh(t1, t2));
    assert(spec_fresh(t2, t3));
}

} // verus!
