//! Rendezvous storage: a map from directed key pairs `(initiator, peer)` to
//! the record observed at the initiator's last announcement, with TTL-bounded
//! reads and sweeper eviction.

use vstd::prelude::*;

use crate::protocol::clone_opt_strings;
use crate::protocol::SockAddr;
use crate::RECORD_TTL;

verus! {

/// Mathematical image of a record.
pub ghost struct RecordView {
    pub wan_addr: SockAddr,
    pub lan_addrs: Option<Seq<Seq<char>>>,
    pub timestamp: u64,
}

/// What the server remembers of one announcement edge: the announcer's
/// observed WAN endpoint, its declared LAN addresses, and when it was seen.
/// Timestamps are wall-clock seconds.
#[derive(Debug)]
pub struct Record {
    pub wan_addr: SockAddr,
    pub lan_addrs: Option<Vec<String>>,
    pub timestamp: u64,
}

impl View for Record {
    type V = RecordView;

    open spec fn view(&self) -> RecordView {
        RecordView {
            wan_addr: self.wan_addr,
            lan_addrs: self.lan_addrs.deep_view(),
            timestamp: self.timestamp,
        }
    }
}

impl Clone for Record {
    /// The copy has the same image.
    fn clone(&self) -> (r: Self)
        ensures
            r@ == self@,
    {
        Record {
            wan_addr: self.wan_addr,
            lan_addrs: clone_opt_strings(&self.lan_addrs),
            timestamp: self.timestamp,
        }
    }
}

/// A record is fresh at `now` when its timestamp lies within
/// `[now - RECORD_TTL, now]`.
pub open spec fn spec_fresh(timestamp: u64, now: u64) -> bool {
    timestamp <= now && now - timestamp <= RECORD_TTL
}

/// A stored entry, as spec data: the key pair and the record.
pub ghost struct EntryView {
    pub key: (Seq<char>, Seq<char>),
    pub rec: RecordView,
}

/// The image of one stored entry.
pub open spec fn entry_view(e: ((String, String), Record)) -> EntryView {
    EntryView { key: ((e.0.0)@, (e.0.1)@), rec: (e.1)@ }
}

/// The images of the stored entries, in storage order.
pub open spec fn view_entries(s: Seq<((String, String), Record)>) -> Seq<EntryView> {
    s.map_values(|e: ((String, String), Record)| entry_view(e))
}

/// The map laid down by a sequence of entries; a later entry shadows an
/// earlier one with the same key.
pub open spec fn entries_map(s: Seq<EntryView>) -> Map<(Seq<char>, Seq<char>), RecordView>
    decreases s.len(),
{
    if s.len() == 0 {
        Map::empty()
    } else {
        entries_map(s.drop_last()).insert(s.last().key, s.last().rec)
    }
}

/// Whether a key occurs in a sequence of entries.
pub open spec fn seq_has_key(s: Seq<EntryView>, k: (Seq<char>, Seq<char>)) -> bool {
    exists|i: int| 0 <= i < s.len() && (#[trigger] s[i]).key == k
}

/// Pairwise distinct keys.
pub open spec fn keys_unique(s: Seq<EntryView>) -> bool {
    forall|i: int, j: int| 0 <= i < j < s.len() ==> (#[trigger] s[i]).key != (#[trigger] s[j]).key
}

/// A key is in the map exactly when it occurs in the sequence.
pub proof fn lemma_map_domain(s: Seq<EntryView>, k: (Seq<char>, Seq<char>))
    ensures
        entries_map(s).contains_key(k) <==> seq_has_key(s, k),
    decreases s.len(),
{
    if s.len() == 0 {
    } else {
        lemma_map_domain(s.drop_last(), k);
        if s.last().key == k {
            assert((s[s.len() - 1]).key == k);
        } else {
            if seq_has_key(s.drop_last(), k) {
                let i = choose|i: int|
                    0 <= i < s.drop_last().len() && (#[trigger] s.drop_last()[i]).key == k;
                assert((s[i]).key == k);
            }
            if seq_has_key(s, k) {
                let i = choose|i: int| 0 <= i < s.len() && (#[trigger] s[i]).key == k;
                assert((s.drop_last()[i]).key == k);
            }
        }
    }
}

/// With distinct keys, the map holds each entry's record under its key.
pub proof fn lemma_map_index(s: Seq<EntryView>, i: int)
    requires
        keys_unique(s),
        0 <= i < s.len(),
    ensures
        entries_map(s).contains_key(s[i].key),
        entries_map(s)[s[i].key] == s[i].rec,
    decreases s.len(),
{
    if i == s.len() - 1 {
        lemma_map_domain(s, s[i].key);
    } else {
        lemma_map_index(s.drop_last(), i);
        assert(s.drop_last()[i] == s[i]);
        assert((s[s.len() - 1]).key != (s[i]).key);
    }
}

/// Replacing the record under an existing key updates the map at that key.
pub proof fn lemma_map_update(s: Seq<EntryView>, i: int, e: EntryView)
    requires
        keys_unique(s),
        0 <= i < s.len(),
        s[i].key == e.key,
    ensures
        entries_map(s.update(i, e)) =~= entries_map(s).insert(e.key, e.rec),
        keys_unique(s.update(i, e)),
    decreases s.len(),
{
    let t = s.update(i, e);
    assert forall|x: int, y: int| 0 <= x < y < t.len() implies (#[trigger] t[x]).key != (
    #[trigger] t[y]).key by {
        assert((t[x]).key == (s[x]).key);
        assert((t[y]).key == (s[y]).key);
    }
    if i == s.len() - 1 {
        assert(t.drop_last() =~= s.drop_last());
        assert(t.last() == e);
    } else {
        assert(t.drop_last() =~= s.drop_last().update(i, e));
        assert(s.drop_last()[i] == s[i]);
        lemma_map_update(s.drop_last(), i, e);
        assert(t.last() == s.last());
        assert((s[s.len() - 1]).key != (s[i]).key);
    }
}

/// Appending an entry with a new key inserts it into the map.
pub proof fn lemma_map_push(s: Seq<EntryView>, e: EntryView)
    requires
        keys_unique(s),
        !seq_has_key(s, e.key),
    ensures
        entries_map(s.push(e)) == entries_map(s).insert(e.key, e.rec),
        keys_unique(s.push(e)),
{
    assert(s.push(e).drop_last() =~= s);
    assert(s.push(e).last() == e);
    let t = s.push(e);
    assert forall|x: int, y: int| 0 <= x < y < t.len() implies (#[trigger] t[x]).key != (
    #[trigger] t[y]).key by {
        if y < s.len() {
            assert((t[x]).key == (s[x]).key);
            assert((t[y]).key == (s[y]).key);
        } else {
            assert((t[x]).key == (s[x]).key);
            assert((s[x]).key != e.key);
        }
    }
    assert(entries_map(s.push(e)) == entries_map(s).insert(e.key, e.rec));
}

/// The fresh entries of a sequence, in order.
pub open spec fn fresh_only(s: Seq<EntryView>, now: u64) -> Seq<EntryView>
    decreases s.len(),
{
    if s.len() == 0 {
        s
    } else {
        let rest = fresh_only(s.drop_last(), now);
        if spec_fresh(s.last().rec.timestamp, now) {
            rest.push(s.last())
        } else {
            rest
        }
    }
}

/// Keeping only the fresh entries restricts the map to the fresh keys and
/// keeps their records.
pub proof fn lemma_map_fresh_only(s: Seq<EntryView>, now: u64)
    requires
        keys_unique(s),
    ensures
        keys_unique(fresh_only(s, now)),
        forall|k: (Seq<char>, Seq<char>)|
            entries_map(fresh_only(s, now)).contains_key(k) <==> (#[trigger] entries_map(
                s,
            ).contains_key(k) && spec_fresh(entries_map(s)[k].timestamp, now)),
        forall|k: (Seq<char>, Seq<char>)|
            entries_map(fresh_only(s, now)).contains_key(k) ==> entries_map(fresh_only(s, now))[k]
                == #[trigger] entries_map(s)[k],
    decreases s.len(),
{
    if s.len() == 0 {
    } else {
        let rest = s.drop_last();
        let last = s.last();
        lemma_map_fresh_only(rest, now);
        assert(!seq_has_key(rest, last.key)) by {
            if seq_has_key(rest, last.key) {
                let i = choose|i: int| 0 <= i < rest.len() && (#[trigger] rest[i]).key == last.key;
                assert((s[i]).key == (s[s.len() - 1]).key);
            }
        }
        lemma_map_domain(rest, last.key);
        assert forall|k: (Seq<char>, Seq<char>)|
            seq_has_key(fresh_only(rest, now), k) implies seq_has_key(rest, k) by {
            lemma_map_domain(fresh_only(rest, now), k);
            lemma_map_domain(rest, k);
        }
        if spec_fresh(last.rec.timestamp, now) {
            assert(!seq_has_key(fresh_only(rest, now), last.key)) by {
                lemma_map_domain(fresh_only(rest, now), last.key);
            }
            lemma_map_push(fresh_only(rest, now), last);
        } else {
            assert(!entries_map(fresh_only(rest, now)).contains_key(last.key)) by {
                lemma_map_domain(fresh_only(rest, now), last.key);
            }
        }
    }
}

/// The concurrent map of the rendezvous server, as one lock holder sees it:
/// a sequence of entries with pairwise distinct keys.
pub struct Storage {
    entries: Vec<((String, String), Record)>,
}

impl View for Storage {
    type V = Map<(Seq<char>, Seq<char>), RecordView>;

    closed spec fn view(&self) -> Map<(Seq<char>, Seq<char>), RecordView> {
        entries_map(view_entries(self.entries@))
    }
}

impl Storage {
    /// The storage representation keeps one entry per key.
    pub closed spec fn inv(&self) -> bool {
        keys_unique(view_entries(self.entries@))
    }

    /// The stored entries, in order; what the status publisher walks.
    pub closed spec fn entry_views(&self) -> Seq<EntryView> {
        view_entries(self.entries@)
    }

    /// An empty storage.
    pub fn new() -> (s: Storage)
        ensures
            s.inv(),
            s@ == Map::<(Seq<char>, Seq<char>), RecordView>::empty(),
    {
        Storage { entries: Vec::new() }
    }

    /// Looks for the position of a key.
    fn find(&self, initiator: &String, peer: &String) -> (r: Option<usize>)
        ensures
            (match r {
                Some(i) => i < self.entries@.len() && view_entries(self.entries@)[i as int].key
                    == (initiator@, peer@),
                None => !seq_has_key(view_entries(self.entries@), (initiator@, peer@)),
            }),
    {
        let n = self.entries.len();
        let mut j: usize = 0;
        while j < n
            invariant
                n == self.entries@.len(),
                0 <= j <= n,
                forall|x: int|
                    0 <= x < j ==> (#[trigger] view_entries(self.entries@)[x]).key != (
                    initiator@,
                    peer@,
                ),
            decreases n - j,
        {
            if self.entries[j].0.0.eq(initiator) && self.entries[j].0.1.eq(peer) {
                return Some(j);
            }
            proof {
                assert(view_entries(self.entries@)[j as int] == entry_view(
                    self.entries@[j as int],
                ));
            }
            j += 1;
        }
        None
    }

    /// Inserts or overwrites the record under `(initiator, peer)`.
    pub fn insert(&mut self, initiator: &String, peer: &String, rec: Record)
        requires
            old(self).inv(),
        ensures
            final(self).inv(),
            final(self)@ == old(self)@.insert((initiator@, peer@), rec@),
    {
        let ghost vs = view_entries(self.entries@);
        let ghost recv = rec@;
        let idx = self.find(initiator, peer);
        let entry = ((initiator.clone(), peer.clone()), rec);
        proof {
            assert(entry_view(entry) == (EntryView { key: (initiator@, peer@), rec: recv }));
        }
        match idx {
            Some(i) => {
                self.entries.remove(i);
                self.entries.insert(i, entry);
                proof {
                    assert(view_entries(self.entries@) =~= vs.update(
                        i as int,
                        entry_view(entry),
                    ));
                    lemma_map_update(vs, i as int, entry_view(entry));
                    assert(final(self)@ =~= old(self)@.insert((initiator@, peer@), recv));
                }
            },
            None => {
                self.entries.push(entry);
                proof {
                    assert(view_entries(self.entries@) =~= vs.push(entry_view(entry)));
                    lemma_map_push(vs, entry_view(entry));
                }
            },
        }
    }

    /// Returns the record under `(initiator, peer)` when one is stored and
    /// still fresh at `now`; never a record older than the TTL.
    pub fn get(&self, initiator: &String, peer: &String, now: u64) -> (r: Option<&Record>)
        requires
            self.inv(),
        ensures
            (match r {
                Some(rec) => self@.contains_key((initiator@, peer@)) && rec@ == self@[(
                    initiator@,
                    peer@,
                )] && spec_fresh(rec@.timestamp, now),
                None => !self@.contains_key((initiator@, peer@)) || !spec_fresh(
                    self@[(initiator@, peer@)].timestamp,
                    now,
                ),
            }),
    {
        let idx = self.find(initiator, peer);
        match idx {
            Some(i) => {
                proof {
                    lemma_map_index(view_entries(self.entries@), i as int);
                    assert(view_entries(self.entries@)[i as int] == entry_view(
                        self.entries@[i as int],
                    ));
                }
                let rec = &self.entries[i].1;
                if rec.timestamp <= now && now - rec.timestamp <= RECORD_TTL {
                    Some(rec)
                } else {
                    None
                }
            },
            None => {
                proof {
                    lemma_map_domain(view_entries(self.entries@), (initiator@, peer@));
                }
                None
            },
        }
    }

    /// Removes every record that is no longer fresh at `now`: afterwards the
    /// map holds exactly the fresh part of what it held before, unchanged.
    pub fn sweep(&mut self, now: u64)
        requires
            old(self).inv(),
        ensures
            final(self).inv(),
            forall|k: (Seq<char>, Seq<char>)|
                final(self)@.contains_key(k) <==> (#[trigger] old(self)@.contains_key(k)
                    && spec_fresh(old(self)@[k].timestamp, now)),
            forall|k: (Seq<char>, Seq<char>)|
                final(self)@.contains_key(k) ==> final(self)@[k] == #[trigger] old(self)@[k],
    {
        let ghost vs = view_entries(self.entries@);
        let n = self.entries.len();
        let mut kept: Vec<((String, String), Record)> = Vec::new();
        let mut j: usize = 0;
        while j < n
            invariant
                n == self.entries@.len(),
                view_entries(self.entries@) == vs,
                0 <= j <= n,
                view_entries(kept@) == fresh_only(vs.take(j as int), now),
            decreases n - j,
        {
            proof {
                assert(vs.take(j + 1).drop_last() =~= vs.take(j as int));
                assert(vs.take(j + 1).last() == vs[j as int]);
                assert(vs[j as int] == entry_view(self.entries@[j as int]));
            }
            let e = &self.entries[j];
            if e.1.timestamp <= now && now - e.1.timestamp <= RECORD_TTL {
                let ghost keptv = view_entries(kept@);
                let ke = ((e.0.0.clone(), e.0.1.clone()), e.1.clone());
                proof {
                    assert(entry_view(ke) == vs[j as int]);
                }
                kept.push(ke);
                proof {
                    assert(view_entries(kept@) =~= keptv.push(entry_view(ke)));
                    assert(view_entries(kept@) =~= fresh_only(vs.take(j + 1), now));
                }
            } else {
                proof {
                    assert(view_entries(kept@) =~= fresh_only(vs.take(j + 1), now));
                }
            }
            j += 1;
        }
        proof {
            assert(vs.take(n as int) =~= vs);
            lemma_map_fresh_only(vs, now);
        }
        self.entries = kept;
    }

    /// The number of stored records.
    pub fn len(&self) -> (n: usize)
        ensures
            n == self.entry_views().len(),
    {
        self.entries.len()
    }

    /// How long ago a record's timestamp lies, saturating at zero for a
    /// timestamp that is still in the future; what the status publisher
    /// prints beside each record.
    pub fn seconds_ago(timestamp: u64, now: u64) -> (r: u64)
        ensures
            timestamp <= now ==> r == now - timestamp,
            timestamp > now ==> r == 0,
    {
        if timestamp <= now {
            now - timestamp
        } else {
            0
        }
    }

    /// The entry at a position, for walking the storage.
    pub fn entry_at(&self, i: usize) -> (r: (&String, &String, &Record))
        requires
            i < self.entry_views().len(),
        ensures
            self.entry_views()[i as int] == (EntryView {
                key: ((r.0)@, (r.1)@),
                rec: (r.2)@,
            }),
    {
        let e = &self.entries[i];
        proof {
            assert(view_entries(self.entries@)[i as int] == entry_view(self.entries@[i as int]));
        }
        (&e.0.0, &e.0.1, &e.1)
    }
}

} // verus!
