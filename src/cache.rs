//! The result cache: one analysis snapshot per canonical FBAS, never evicted.

use vstd::prelude::*;
use crate::engine::{
    blocking_sets_of, clusters_of, has_quorum_intersection, intersection_of, lists,
    minimal_blocking_sets, minimal_quorums, minimal_splitting_sets, quorums_of, same_bytes, splitting_sets_of, symmetric_clusters, top_tier, top_tier_of,
    StandardFbas,
};
use crate::sets::{is_antichain, sets_wf};

verus! {

/// What the analysis engine computed for one FBAS.
pub struct Snapshot {
    pub minimal_quorums: Vec<Vec<usize>>,
    pub minimal_blocking_sets: Vec<Vec<usize>>,
    pub minimal_splitting_sets: Vec<Vec<usize>>,
    pub top_tier: Vec<usize>,
    pub has_quorum_intersection: bool,
    pub symmetric_clusters: Vec<fbas_analyzer::QuorumSet>,
}

impl Snapshot {
    /// Every node set lists each of its nodes once, and in each collection no
    /// member is a subset of another.
    pub open spec fn wf(&self) -> bool {
        &&& sets_wf(self.minimal_quorums@)
        &&& sets_wf(self.minimal_blocking_sets@)
        &&& sets_wf(self.minimal_splitting_sets@)
        &&& is_antichain(self.minimal_quorums@)
        &&& is_antichain(self.minimal_blocking_sets@)
        &&& is_antichain(self.minimal_splitting_sets@)
        &&& self.top_tier@.no_duplicates()
    }

    /// The snapshot holds what the engine computes for the FBAS serialized as `key`.
    pub open spec fn is_analysis_of(&self, key: Seq<u8>) -> bool {
        &&& lists(self.minimal_quorums@) == quorums_of(key)
        &&& lists(self.minimal_blocking_sets@) == blocking_sets_of(key)
        &&& lists(self.minimal_splitting_sets@) == splitting_sets_of(key)
        &&& self.top_tier@ == top_tier_of(key)
        &&& self.has_quorum_intersection == intersection_of(key)
        &&& self.symmetric_clusters@ == clusters_of(key)
    }
}

/// Runs the analysis engine on `fbas`.
pub fn analyse(fbas: &StandardFbas) -> (r: Snapshot)
    ensures
        r.wf(),
        r.is_analysis_of(fbas.key()),
{
    let a = fbas.analysis();
    Snapshot {
        minimal_quorums: minimal_quorums(&a),
        minimal_blocking_sets: minimal_blocking_sets(&a),
        minimal_splitting_sets: minimal_splitting_sets(&a),
        top_tier: top_tier(&a),
        has_quorum_intersection: has_quorum_intersection(&a),
        symmetric_clusters: symmetric_clusters(&a),
    }
}

/// Snapshots by canonical key; each key occurs once.
pub struct ResultCache {
    keys: Vec<Vec<u8>>,
    values: Vec<Snapshot>,
}

impl ResultCache {
    /// Keys and snapshots pair up, no key occurs twice, and each snapshot is the
    /// analysis of its key.
    pub closed spec fn wf(&self) -> bool {
        &&& self.keys@.len() == self.values@.len()
        &&& forall|i: int, j: int|
            #![trigger self.keys@[i], self.keys@[j]]
            0 <= i < self.keys@.len() && 0 <= j < self.keys@.len() && i != j ==> self.keys@[i]@
                != self.keys@[j]@
        &&& forall|i: int| 0 <= i < self.values@.len() ==> (#[trigger] self.values@[i]).wf()
        &&& forall|i: int|
            0 <= i < self.values@.len() ==> (#[trigger] self.values@[i]).is_analysis_of(
                self.keys@[i]@,
            )
    }

    /// The number of entries.
    pub closed spec fn size(&self) -> nat {
        self.keys@.len()
    }

    /// The key of entry `i`.
    pub closed spec fn key_at(&self, i: int) -> Seq<u8> {
        self.keys@[i]@
    }

    /// The snapshot of entry `i`.
    pub closed spec fn value_at(&self, i: int) -> Snapshot {
        self.values@[i]
    }

    /// Whether some entry has key `k`.
    pub open spec fn has_key(&self, k: Seq<u8>) -> bool {
        exists|i: int| 0 <= i < self.size() && self.key_at(i) == k
    }

    /// An empty cache.
    pub fn new() -> (r: ResultCache)
        ensures
            r.wf(),
            r.size() == 0,
    {
        ResultCache { keys: Vec::new(), values: Vec::new() }
    }

    /// The number of entries.
    pub fn len(&self) -> (r: usize)
        requires
            self.wf(),
        ensures
            r == self.size(),
    {
        self.keys.len()
    }

    /// The entry whose key is `key`, if there is one.
    pub fn lookup(&self, key: &Vec<u8>) -> (r: Option<usize>)
        requires
            self.wf(),
        ensures
            r matches Some(i) ==> i < self.size() && self.key_at(i as int) == key@,
            r is None <==> !self.has_key(key@),
    {
        let mut i: usize = 0;
        while i < self.keys.len()
            invariant
                0 <= i <= self.keys@.len(),
                forall|k: int| 0 <= k < i ==> self.keys@[k]@ != key@,
            decreases self.keys.len() - i,
        {
            if same_bytes(&self.keys[i], key) {
                assert(self.key_at(i as int) == key@);
                return Some(i);
            }
            i = i + 1;
        }
        None
    }

    /// The snapshot of entry `i`.
    pub fn get(&self, i: usize) -> (r: &Snapshot)
        requires
            self.wf(),
            i < self.size(),
        ensures
            *r == self.value_at(i as int),
            r.wf(),
            r.is_analysis_of(self.key_at(i as int)),
    {
        &self.values[i]
    }

    /// Records `value` under `key`, replacing the snapshot of an entry with that key
    /// (by an equal snapshot: both are the analysis of `key`). Returns the entry's index.
    pub fn insert(&mut self, key: Vec<u8>, value: Snapshot) -> (r: usize)
        requires
            old(self).wf(),
            value.wf(),
            value.is_analysis_of(key@),
        ensures
            final(self).wf(),
            r < final(self).size(),
            final(self).key_at(r as int) == key@,
            final(self).value_at(r as int) == value,
            !old(self).has_key(key@) ==> r == old(self).size(),
            final(self).size() == old(self).size() + if old(self).has_key(key@) {
                0int
            } else {
                1int
            },
            forall|i: int|
                0 <= i < old(self).size() && i != r ==> final(self).key_at(i) == old(self).key_at(i)
                    && final(self).value_at(i) == old(self).value_at(i),
    {
        match self.lookup(&key) {
            Some(i) => {
                self.values.set(i, value);
                assert(self.keys@[i as int]@ == key@);
                assert forall|j: int|
                    0 <= j < self.values@.len() implies (#[trigger] self.values@[j]).wf()
                        && self.values@[j].is_analysis_of(self.keys@[j]@) by {
                    if j != i {
                        assert(self.values@[j] == old(self).values@[j]);
                    }
                }
                i
            },
            None => {
                let ghost k = key@;
                self.keys.push(key);
                self.values.push(value);
                let n = self.keys.len() - 1;
                assert(self.keys@[n as int]@ == k);
                assert forall|i: int, j: int|
                    #![trigger self.keys@[i], self.keys@[j]]
                    0 <= i < self.keys@.len() && 0 <= j < self.keys@.len() && i != j implies self.keys@[i]@
                        != self.keys@[j]@ by {
                    if i < n && j < n {
                        assert(self.keys@[i] == old(self).keys@[i]);
                        assert(self.keys@[j] == old(self).keys@[j]);
                    } else if i < n {
                        assert(self.keys@[i] == old(self).keys@[i]);
                        assert(old(self).key_at(i) != k);
                    } else {
                        assert(self.keys@[j] == old(self).keys@[j]);
                        assert(old(self).key_at(j) != k);
                    }
                }
                assert forall|j: int|
                    0 <= j < self.values@.len() implies (#[trigger] self.values@[j]).wf()
                        && self.values@[j].is_analysis_of(self.keys@[j]@) by {
                    if j < n {
                        assert(self.values@[j] == old(self).values@[j]);
                        assert(self.keys@[j] == old(self).keys@[j]);
                    }
                }
                n
            },
        }
    }
}

/// The engine is a function of the FBAS: two snapshots that are analyses of the
/// same key hold the same node sets, top tier, flag and clusters, so equal
/// standardized FBAS values, which share a key, get equal snapshots.
pub proof fn lemma_analyses_agree(a: Snapshot, b: Snapshot, fa: StandardFbas, fb: StandardFbas)
    requires
        fa.fbas() == fb.fbas(),
        a.is_analysis_of(fa.key()),
        b.is_analysis_of(fb.key()),
    ensures
        fa.key() == fb.key(),
        lists(a.minimal_quorums@) == lists(b.minimal_quorums@),
        lists(a.minimal_blocking_sets@) == lists(b.minimal_blocking_sets@),
        lists(a.minimal_splitting_sets@) == lists(b.minimal_splitting_sets@),
        a.top_tier@ == b.top_tier@,
        a.has_quorum_intersection == b.has_quorum_intersection,
        a.symmetric_clusters@ == b.symmetric_clusters@,
{
}

/// Looks the canonical key of `fbas` up and, on a miss, runs the engine on `fbas`
/// and records the result. Returns the entry that holds the snapshot and whether
/// it was already cached. A hit leaves the cache as it was; a miss adds one entry
/// and keeps every other. Either way the entry holds the analysis of `fbas`.
pub fn analysis_with_cache(cache: &mut ResultCache, fbas: &StandardFbas) -> (r: (usize, bool))
    requires
        old(cache).wf(),
    ensures
        final(cache).wf(),
        r.1 == old(cache).has_key(fbas.key()),
        r.0 < final(cache).size(),
        final(cache).key_at(r.0 as int) == fbas.key(),
        final(cache).value_at(r.0 as int).is_analysis_of(fbas.key()),
        r.1 ==> *final(cache) == *old(cache),
        !r.1 ==> final(cache).size() == old(cache).size() + 1 && r.0 == old(cache).size(),
        forall|i: int|
            0 <= i < old(cache).size() ==> final(cache).key_at(i) == old(cache).key_at(i)
                && final(cache).value_at(i) == old(cache).value_at(i),
{
    let key = fbas.canonical_key();
    match cache.lookup(&key) {
        Some(i) => (i, true),
        None => {
            let s = analyse(fbas);
            let i = cache.insert(key, s);
            (i, false)
        },
    }
}

} // verus!
