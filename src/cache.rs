use vstd::prelude::*;
use crate::text::bytes_at;

verus! {

/// Recency order of a cache: (authority, slot) pairs, least recently used first.
pub type CacheSeq = Seq<(Seq<u8>, usize)>;

/// Keys are distinct, slots are distinct and numbered below the length,
/// and the length stays within the capacity.
pub open spec fn cache_wf(v: CacheSeq, cap: nat) -> bool {
    &&& 1 <= cap <= usize::MAX
    &&& v.len() <= cap
    &&& forall|i: int, j: int| 0 <= i < j < v.len() ==> (#[trigger] v[i]).0 != (#[trigger] v[j]).0
    &&& forall|i: int, j: int| 0 <= i < j < v.len() ==> (#[trigger] v[i]).1 != (#[trigger] v[j]).1
    &&& forall|i: int| 0 <= i < v.len() ==> (#[trigger] v[i]).1 < v.len()
}

pub open spec fn has_key(v: CacheSeq, key: Seq<u8>) -> bool {
    exists|i: int| 0 <= i < v.len() && (#[trigger] v[i]).0 == key
}

pub open spec fn key_index(v: CacheSeq, key: Seq<u8>) -> int {
    choose|i: int| 0 <= i < v.len() && (#[trigger] v[i]).0 == key
}

/// One lookup: a hit moves the entry to the most recent end and gives its
/// slot; a miss adds the key with a new slot while there is room, and
/// otherwise takes the slot of the least recently used entry, which leaves.
/// The result is the new order, the slot, and whether the slot is fresh.
pub open spec fn cache_step(v: CacheSeq, cap: nat, key: Seq<u8>) -> (CacheSeq, usize, bool) {
    if has_key(v, key) {
        let i = key_index(v, key);
        (v.remove(i).push(v[i]), v[i].1, false)
    } else if v.len() < cap {
        (v.push((key, v.len() as usize)), v.len() as usize, true)
    } else {
        (v.drop_first().push((key, v[0].1)), v[0].1, true)
    }
}

pub struct CacheEntry {
    pub key: Vec<u8>,
    pub slot: usize,
}

/// A bounded map from authority to a slot number, evicting the least
/// recently used authority on overflow. The caller keeps the values (the
/// server configurations) in a table indexed by slot.
pub struct LeafCache {
    entries: Vec<CacheEntry>,
    capacity: usize,
}

pub open spec fn cache_view(e: Seq<CacheEntry>) -> CacheSeq {
    Seq::new(e.len(), |i: int| (e[i].key@, e[i].slot))
}

impl View for LeafCache {
    type V = CacheSeq;

    closed spec fn view(&self) -> CacheSeq {
        cache_view(self.entries@)
    }
}

pub fn bytes_eq(a: &[u8], b: &[u8]) -> (r: bool)
    ensures
        r == (a@ == b@),
{
    if a.len() != b.len() {
        return false;
    }
    let r = bytes_at(a, b, 0);
    assert(a@.subrange(0, b@.len() as int) =~= a@);
    r
}

/// A hit keeps the cache well formed.
proof fn lemma_hit_wf(v: CacheSeq, cap: nat, i: int)
    requires
        cache_wf(v, cap),
        0 <= i < v.len(),
    ensures
        cache_wf(v.remove(i).push(v[i]), cap),
{
    let w = v.remove(i).push(v[i]);
    assert forall|k: int| 0 <= k < w.len() implies (#[trigger] w[k]) == v[if k < i { k } else if k < v.len() - 1 { k + 1 } else { i }] by {}
}

/// Every lookup keeps the cache well formed.
pub proof fn lemma_step_wf(v: CacheSeq, cap: nat, key: Seq<u8>)
    requires
        cache_wf(v, cap),
    ensures
        cache_wf(cache_step(v, cap, key).0, cap),
{
    if has_key(v, key) {
        lemma_hit_wf(v, cap, key_index(v, key));
    } else if v.len() < cap {
        let w = v.push((key, v.len() as usize));
        assert((v.len() as usize) as int == v.len());
        assert forall|k: int| 0 <= k < v.len() implies (#[trigger] w[k]) == v[k] by {}
        assert(w[v.len() as int] == (key, v.len() as usize));
    } else {
        assert(v.len() >= 1);
        let w = v.drop_first().push((key, v[0].1));
        assert forall|k: int| 0 <= k < w.len() - 1 implies (#[trigger] w[k]) == v[k + 1] by {}
    }
}

/// Two lookups of one authority in a row give the same slot, and the second
/// one is a hit: the leaf is minted at most once.
pub proof fn lemma_repeat_lookup_hits(v: CacheSeq, cap: nat, key: Seq<u8>)
    requires
        cache_wf(v, cap),
    ensures
        cache_step(cache_step(v, cap, key).0, cap, key).1 == cache_step(v, cap, key).1,
        !cache_step(cache_step(v, cap, key).0, cap, key).2,
{
    lemma_step_wf(v, cap, key);
    let (w, s, _) = cache_step(v, cap, key);
    let last = w.len() - 1;
    if has_key(v, key) {
        let i = key_index(v, key);
        assert(w[last] == v[i]);
    }
    assert(w[last].0 == key);
    assert(has_key(w, key));
    let j = key_index(w, key);
    assert(j == last);
}

impl LeafCache {
    pub closed spec fn capacity(&self) -> nat {
        self.capacity as nat
    }

    pub closed spec fn wf(&self) -> bool {
        cache_wf(self@, self.capacity as nat)
    }

    /// An empty cache holding up to `capacity` authorities (at least one).
    pub fn new(capacity: usize) -> (r: LeafCache)
        ensures
            r.wf(),
            r@.len() == 0,
            r.capacity() == if capacity == 0 { 1 } else { capacity as nat },
    {
        let capacity: usize = if capacity == 0 { 1 } else { capacity };
        let r = LeafCache { entries: Vec::new(), capacity };
        assert(r@.len() == 0);
        r
    }

    /// Looks `authority` up, as `cache_step` says. A fresh slot is to be
    /// filled with a newly minted configuration.
    pub fn get_or_insert(&mut self, authority: &[u8]) -> (r: (usize, bool))
        requires
            old(self).wf(),
        ensures
            final(self).wf(),
            final(self).capacity() == old(self).capacity(),
            (final(self)@, r.0, r.1) == cache_step(old(self)@, old(self).capacity(), authority@),
    {
        let ghost v = self@;
        let mut i: usize = 0;
        while i < self.entries.len()
            invariant
                i <= self@.len(),
                self@ == v,
                v == old(self)@,
                self.capacity == old(self).capacity,
                cache_wf(v, self.capacity as nat),
                forall|k: int| 0 <= k < i ==> (#[trigger] v[k]).0 != authority@,
            decreases self@.len() - i,
        {
            if bytes_eq(self.entries[i].key.as_slice(), authority) {
                proof {
                    assert(v[i as int].0 == authority@);
                    assert(has_key(v, authority@));
                    let j = key_index(v, authority@);
                    if j != i as int {
                        assert(v[j].0 == v[i as int].0);
                    }
                    assert(j == i as int);
                }
                let e = self.entries.remove(i);
                let slot = e.slot;
                self.entries.push(e);
                assert(self@ =~= v.remove(i as int).push(v[i as int]));
                proof {
                    lemma_step_wf(v, self.capacity as nat, authority@);
                }
                return (slot, false);
            }
            i = i + 1;
        }
        proof {
            lemma_step_wf(v, self.capacity as nat, authority@);
        }
        let key = vstd::slice::slice_to_vec(authority);
        if self.entries.len() < self.capacity {
            let slot = self.entries.len();
            self.entries.push(CacheEntry { key, slot });
            assert(self@ =~= v.push((authority@, slot)));
            (slot, true)
        } else {
            let e = self.entries.remove(0);
            let slot = e.slot;
            self.entries.push(CacheEntry { key, slot });
            assert(self@ =~= v.drop_first().push((authority@, slot)));
            (slot, true)
        }
    }
}

} // verus!
