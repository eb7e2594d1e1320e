//! A map from byte strings to ranks, hashed on the bytes.
use vstd::prelude::*;

use std::collections::HashMap;

use crate::pairs::{distinct_keys, has_key, lemma_pairs_push, lemma_pairs_update, pairs_map};

verus! {

broadcast use vstd::std_specs::hash::group_hash_axioms;

/// FNV-1a hash of a byte string.
pub open spec fn byte_hash(s: Seq<u8>) -> u64
    decreases s.len(),
{
    if s.len() == 0 {
        0xcbf29ce484222325u64
    } else {
        ((((byte_hash(s.drop_last()) ^ (s.last() as u64)) as int) * 0x100000001b3int)
            % 0x1_0000_0000_0000_0000int) as u64
    }
}

/// Computes `byte_hash`.
pub fn hash_bytes(s: &[u8]) -> (h: u64)
    ensures
        h == byte_hash(s@),
{
    let mut h: u64 = 0xcbf29ce484222325u64;
    let mut i: usize = 0;
    while i < s.len()
        invariant
            i <= s@.len(),
            h == byte_hash(s@.take(i as int)),
        decreases s.len() - i,
    {
        assert(s@.take(i + 1).drop_last() == s@.take(i as int));
        let mixed: u64 = h ^ (s[i] as u64);
        h = ((mixed as u128) * 0x100000001b3u128 % 0x1_0000_0000_0000_0000u128) as u64;
        i = i + 1;
    }
    assert(s@.take(i as int) == s@);
    h
}

/// Whether two byte strings are equal.
pub fn bytes_equal(a: &[u8], b: &[u8]) -> (r: bool)
    ensures
        r == (a@ == b@),
{
    if a.len() != b.len() {
        return false;
    }
    let mut i: usize = 0;
    while i < a.len()
        invariant
            a@.len() == b@.len(),
            i <= a@.len(),
            forall|j: int| 0 <= j < i ==> a@[j] == b@[j],
        decreases a.len() - i,
    {
        if a[i] != b[i] {
            return false;
        }
        i = i + 1;
    }
    assert(a@ =~= b@);
    true
}

/// A map from byte strings to ranks: the pairs in the order their keys
/// first arrived, with an index from each key's hash to its positions.
pub struct RankMap {
    entries: Vec<(Vec<u8>, u32)>,
    index: HashMap<u64, Vec<usize>>,
}

impl RankMap {
    /// The pairs, each key once, in the order the keys first arrived.
    pub closed spec fn entries_view(&self) -> Seq<(Vec<u8>, u32)> {
        self.entries@
    }

    /// The map from keys to ranks.
    pub open spec fn map(&self) -> Map<Seq<u8>, u32> {
        pairs_map(self.entries_view())
    }

    /// The index lists every pair's position under its key's hash, and
    /// nothing else.
    pub closed spec fn wf(&self) -> bool {
        &&& distinct_keys(self.entries@)
        &&& forall|i: int| 0 <= i < self.entries@.len() ==> {
            let h = byte_hash(#[trigger] self.entries@[i].0@);
            &&& self.index@.contains_key(h)
            &&& self.index@[h]@.contains(i as usize)
        }
        &&& forall|h: u64, k: int| #![trigger self.index@[h]@[k]]
            self.index@.contains_key(h) && 0 <= k < self.index@[h]@.len() ==> {
                let i = self.index@[h]@[k];
                &&& i < self.entries@.len()
                &&& byte_hash(self.entries@[i as int].0@) == h
            }
    }

    /// A well-formed map holds each key once.
    pub proof fn lemma_distinct(&self)
        requires
            self.wf(),
        ensures
            distinct_keys(self.entries_view()),
    {
    }

    /// An empty map.
    pub fn new() -> (m: RankMap)
        ensures
            m.wf(),
            m.entries_view() == Seq::<(Vec<u8>, u32)>::empty(),
            m.map() == Map::<Seq<u8>, u32>::empty(),
    {
        RankMap { entries: Vec::new(), index: HashMap::new() }
    }

    /// The pairs, each key once, in the order the keys first arrived.
    pub fn entries(&self) -> (e: &Vec<(Vec<u8>, u32)>)
        requires
            self.wf(),
        ensures
            e@ == self.entries_view(),
            distinct_keys(e@),
    {
        &self.entries
    }

    /// Sets `key` to `rank`, replacing the rank it already has, as
    /// `HashMap::insert` does.
    pub fn insert(&mut self, key: Vec<u8>, rank: u32)
        requires
            old(self).wf(),
        ensures
            final(self).wf(),
            final(self).map() == old(self).map().insert(key@, rank),
            has_key(old(self).entries_view(), key@) ==> exists|j: int| 0 <= j < old(self).entries_view().len()
                && old(self).entries_view()[j].0@ == key@
                && final(self).entries_view() == old(self).entries_view().update(j, (key, rank)),
            !has_key(old(self).entries_view(), key@) ==> final(self).entries_view() == old(self).entries_view().push((key, rank)),
    {
        let h = hash_bytes(key.as_slice());
        let bucket: Vec<usize> = match self.index.remove(&h) {
            Some(b) => b,
            None => Vec::new(),
        };
        let ghost old_index = old(self).index@;
        assert(self.index@ == old_index.remove(h));
        let mut k: usize = 0;
        while k < bucket.len()
            invariant
                k <= bucket@.len(),
                old_index == old(self).index@,
                self.index@ == old_index.remove(h),
                h == byte_hash(key@),
                self.entries@ == old(self).entries@,
                old(self).wf(),
                old_index.contains_key(h) ==> bucket == old_index[h],
                !old_index.contains_key(h) ==> bucket@.len() == 0,
                forall|j: int| 0 <= j < k ==> self.entries@[bucket@[j] as int].0@ != key@,
            decreases bucket.len() - k,
        {
            let i = bucket[k];
            proof {
                assert(old_index.contains_key(h));
                assert(old_index[h]@[k as int] == i);
                assert(old(self).index@[h]@[k as int] == i);
                assert((i as int) < old(self).entries@.len());
            }
            if bytes_equal(self.entries[i].0.as_slice(), key.as_slice()) {
                proof {
                    lemma_pairs_update(self.entries@, i as int, key, rank);
                }
                self.entries.set(i, (key, rank));
                self.index.insert(h, bucket);
                proof {
                    assert(self.index@ =~= old_index);
                    assert forall|a: int| 0 <= a < self.entries@.len() && a != i implies #[trigger] self.entries@[a] == old(self).entries@[a] by {}
                    assert(self.entries@[i as int].0@ == old(self).entries@[i as int].0@);
                }
                return;
            }
            k = k + 1;
        }
        proof {
            assert(!has_key(self.entries@, key@)) by {
                if has_key(self.entries@, key@) {
                    let j = choose|j: int| 0 <= j < self.entries@.len() && self.entries@[j].0@ == key@;
                    assert(j < self.entries.len());
                    let ju = j as usize;
                    assert(old(self).entries@[j].0@ == key@);
                    assert(byte_hash(old(self).entries@[j].0@) == h);
                    assert(old(self).index@.contains_key(h));
                    assert(old(self).index@[h]@.contains(ju));
                    let kk = choose|kk: int| 0 <= kk < old_index[h]@.len() && old_index[h]@[kk] == ju;
                    assert(bucket@[kk] == ju);
                    assert(self.entries@[bucket@[kk] as int].0@ != key@);
                }
            }
            lemma_pairs_push(self.entries@, key, rank);
        }
        let pos = self.entries.len();
        self.entries.push((key, rank));
        let mut bucket = bucket;
        bucket.push(pos);
        let ghost nb = bucket;
        let ghost mid_index = self.index@;
        self.index.insert(h, bucket);
        proof {
            assert(self.index@ == mid_index.insert(h, nb));
            assert(mid_index == old_index.remove(h));
            let e = self.entries@;
            let oe = old(self).entries@;
            assert forall|a: int| 0 <= a < oe.len() implies #[trigger] e[a] == oe[a] by {}
            assert forall|a: int| 0 <= a < e.len() implies ({
                let hh = byte_hash(#[trigger] e[a].0@);
                &&& self.index@.contains_key(hh)
                &&& self.index@[hh]@.contains(a as usize)
            }) by {
                let hh = byte_hash(e[a].0@);
                if a < oe.len() {
                    assert(e[a] == oe[a]);
                    assert(old_index.contains_key(hh));
                    assert(old_index[hh]@.contains(a as usize));
                    if hh != h {
                        assert(mid_index.contains_key(hh));
                        assert(self.index@[hh] == old_index[hh]);
                    } else {
                        let kk = choose|kk: int| 0 <= kk < old_index[hh]@.len() && old_index[hh]@[kk] == a as usize;
                        assert(self.index@[hh]@[kk] == a as usize);
                    }
                } else {
                    assert(self.index@[h]@[bucket@.len() - 1] == pos);
                }
            }
            assert forall|hh: u64, kk: int| #![trigger self.index@[hh]@[kk]]
                self.index@.contains_key(hh) && 0 <= kk < self.index@[hh]@.len() implies ({
                    let i = self.index@[hh]@[kk];
                    &&& i < e.len()
                    &&& byte_hash(e[i as int].0@) == hh
                }) by {
                if hh != h {
                    assert(mid_index.contains_key(hh));
                    assert(old_index.contains_key(hh));
                    assert(self.index@[hh] == old_index[hh]);
                    let i = old_index[hh]@[kk];
                    assert(e[i as int] == oe[i as int]);
                } else if kk < bucket@.len() - 1 {
                    assert(self.index@[hh]@[kk] == old_index[hh]@[kk]);
                    let i = old_index[hh]@[kk];
                    assert(e[i as int] == oe[i as int]);
                }
            }
        }
    }
}

} // verus!
