//! The peer activity tracker: the last RX-byte counter observed for each
//! peer, and the activity decision an update makes.

use vstd::prelude::*;

verus! {

/// The image of one tracked peer.
pub open spec fn rx_entry_view(e: (String, u64)) -> (Seq<char>, u64) {
    ((e.0)@, e.1)
}

/// The images of the tracked peers, in insertion order.
pub open spec fn rx_view_entries(s: Seq<(String, u64)>) -> Seq<(Seq<char>, u64)> {
    s.map_values(|e: (String, u64)| rx_entry_view(e))
}

/// The map laid down by a sequence of tracked peers; a later entry shadows
/// an earlier one with the same key.
pub open spec fn rx_map(s: Seq<(Seq<char>, u64)>) -> Map<Seq<char>, u64>
    decreases s.len(),
{
    if s.len() == 0 {
        Map::empty()
    } else {
        rx_map(s.drop_last()).insert(s.last().0, s.last().1)
    }
}

/// Whether a key occurs in a sequence of tracked peers.
pub open spec fn rx_has_key(s: Seq<(Seq<char>, u64)>, k: Seq<char>) -> bool {
    exists|i: int| 0 <= i < s.len() && (#[trigger] s[i]).0 == k
}

/// Pairwise distinct keys.
pub open spec fn rx_keys_unique(s: Seq<(Seq<char>, u64)>) -> bool {
    forall|i: int, j: int| 0 <= i < j < s.len() ==> (#[trigger] s[i]).0 != (#[trigger] s[j]).0
}

/// A key is in the map exactly when it occurs in the sequence.
pub proof fn lemma_rx_domain(s: Seq<(Seq<char>, u64)>, k: Seq<char>)
    ensures
        rx_map(s).contains_key(k) <==> rx_has_key(s, k),
    decreases s.len(),
{
    if s.len() == 0 {
    } else {
        lemma_rx_domain(s.drop_last(), k);
        if s.last().0 == k {
            assert((s[s.len() - 1]).0 == k);
        } else {
            if rx_has_key(s.drop_last(), k) {
                let i = choose|i: int|
                    0 <= i < s.drop_last().len() && (#[trigger] s.drop_last()[i]).0 == k;
                assert((s[i]).0 == k);
            }
            if rx_has_key(s, k) {
                let i = choose|i: int| 0 <= i < s.len() && (#[trigger] s[i]).0 == k;
                assert((s.drop_last()[i]).0 == k);
            }
        }
    }
}

/// With distinct keys, the map holds each entry's counter under its key.
pub proof fn lemma_rx_index(s: Seq<(Seq<char>, u64)>, i: int)
    requires
        rx_keys_unique(s),
        0 <= i < s.len(),
    ensures
        rx_map(s).contains_key(s[i].0),
        rx_map(s)[s[i].0] == s[i].1,
    decreases s.len(),
{
    if i == s.len() - 1 {
        lemma_rx_domain(s, s[i].0);
    } else {
        lemma_rx_index(s.drop_last(), i);
        assert(s.drop_last()[i] == s[i]);
        assert((s[s.len() - 1]).0 != (s[i]).0);
    }
}

/// Replacing the counter under an existing key updates the map at that key.
pub proof fn lemma_rx_update(s: Seq<(Seq<char>, u64)>, i: int, e: (Seq<char>, u64))
    requires
        rx_keys_unique(s),
        0 <= i < s.len(),
        s[i].0 == e.0,
    ensures
        rx_map(s.update(i, e)) =~= rx_map(s).insert(e.0, e.1),
        rx_keys_unique(s.update(i, e)),
    decreases s.len(),
{
    let t = s.update(i, e);
    assert forall|x: int, y: int| 0 <= x < y < t.len() implies (#[trigger] t[x]).0 != (
    #[trigger] t[y]).0 by {
        assert((t[x]).0 == (s[x]).0);
        assert((t[y]).0 == (s[y]).0);
    }
    if i == s.len() - 1 {
        assert(t.drop_last() =~= s.drop_last());
        assert(t.last() == e);
    } else {
        assert(t.drop_last() =~= s.drop_last().update(i, e));
        assert(s.drop_last()[i] == s[i]);
        lemma_rx_update(s.drop_last(), i, e);
        assert(t.last() == s.last());
        assert((s[s.len() - 1]).0 != (s[i]).0);
    }
}

/// Appending an entry with a new key inserts it into the map.
pub proof fn lemma_rx_push(s: Seq<(Seq<char>, u64)>, e: (Seq<char>, u64))
    requires
        rx_keys_unique(s),
        !rx_has_key(s, e.0),
    ensures
        rx_map(s.push(e)) == rx_map(s).insert(e.0, e.1),
        rx_keys_unique(s.push(e)),
{
    assert(s.push(e).drop_last() =~= s);
    assert(s.push(e).last() == e);
    let t = s.push(e);
    assert forall|x: int, y: int| 0 <= x < y < t.len() implies (#[trigger] t[x]).0 != (
    #[trigger] t[y]).0 by {
        if y < s.len() {
            assert((t[x]).0 == (s[x]).0);
            assert((t[y]).0 == (s[y]).0);
        } else {
            assert((t[x]).0 == (s[x]).0);
            assert((s[x]).0 != e.0);
        }
    }
    assert(rx_map(s.push(e)) == rx_map(s).insert(e.0, e.1));
}

/// The tracker: one RX-byte counter per peer key.
pub struct PeersActivity {
    activity: Vec<(String, u64)>,
}

impl View for PeersActivity {
    type V = Map<Seq<char>, u64>;

    closed spec fn view(&self) -> Map<Seq<char>, u64> {
        rx_map(rx_view_entries(self.activity@))
    }
}

impl PeersActivity {
    /// The tracker keeps one entry per key.
    pub closed spec fn inv(&self) -> bool {
        rx_keys_unique(rx_view_entries(self.activity@))
    }

    /// An empty tracker.
    pub fn new() -> (t: Self)
        ensures
            t.inv(),
            t@ == Map::<Seq<char>, u64>::empty(),
    {
        PeersActivity { activity: Vec::new() }
    }

    /// Looks for the position of a key.
    fn find(&self, key: &String) -> (r: Option<usize>)
        ensures
            (match r {
                Some(i) => i < self.activity@.len() && rx_view_entries(self.activity@)[i as int].0
                    == key@,
                None => !rx_has_key(rx_view_entries(self.activity@), key@),
            }),
    {
        let n = self.activity.len();
        let mut j: usize = 0;
        while j < n
            invariant
                n == self.activity@.len(),
                0 <= j <= n,
                forall|x: int|
                    0 <= x < j ==> (#[trigger] rx_view_entries(self.activity@)[x]).0 != key@,
            decreases n - j,
        {
            if self.activity[j].0.eq(key) {
                return Some(j);
            }
            proof {
                assert(rx_view_entries(self.activity@)[j as int] == rx_entry_view(
                    self.activity@[j as int],
                ));
            }
            j += 1;
        }
        None
    }

    /// Feeds one RX sample: the peer counts as active when it is new to the
    /// tracker or its counter advanced, and the latest counter is stored
    /// either way.
    pub fn update(&mut self, public_key: &String, new_rx: u64) -> (active: bool)
        requires
            old(self).inv(),
        ensures
            final(self).inv(),
            final(self)@ == old(self)@.insert(public_key@, new_rx),
            active == (!old(self)@.contains_key(public_key@) || new_rx > old(self)@[public_key@]),
    {
        let ghost vs = rx_view_entries(self.activity@);
        let idx = self.find(public_key);
        match idx {
            Some(i) => {
                proof {
                    lemma_rx_index(vs, i as int);
                }
                let prev = self.activity[i].1;
                let entry = (public_key.clone(), new_rx);
                self.activity.remove(i);
                self.activity.insert(i, entry);
                proof {
                    assert(rx_view_entries(self.activity@) =~= vs.update(
                        i as int,
                        rx_entry_view(entry),
                    ));
                    lemma_rx_update(vs, i as int, rx_entry_view(entry));
                    assert(final(self)@ =~= old(self)@.insert(public_key@, new_rx));
                }
                new_rx > prev
            },
            None => {
                let entry = (public_key.clone(), new_rx);
                self.activity.push(entry);
                proof {
                    assert(rx_view_entries(self.activity@) =~= vs.push(rx_entry_view(entry)));
                    lemma_rx_push(vs, rx_entry_view(entry));
                    lemma_rx_domain(vs, public_key@);
                }
                true
            },
        }
    }
}

} // verus!
