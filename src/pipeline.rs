//! The request pipeline: cache lookup, faulty-node reduction of the blocking
//! sets, optional merging by group, re-minimization, and the derived figures.

use vstd::prelude::*;
use crate::cache::{analysis_with_cache, ResultCache, Snapshot};
use crate::engine::StandardFbas;
use crate::sets::{
    copy_nodes, is_antichain, is_minimal_collection, lemma_minimal_collection_exact, listed_in, member_of,
    minimal_member, lemma_minimization_of_sets, minimal_sets, nodes,
    set_view, sets_wf,
};
use crate::transform::{group_set, merge_node_set, merged_nodes, merged_by_group, without_nodes};

verus! {

/// How nodes are grouped before the results are re-minimized.
pub enum MergeBy {
    DoNotMerge,
    Orgs,
    ISPs,
    Countries,
}

impl MergeBy {
    /// Whether nodes are merged into groups at all.
    pub fn merges(&self) -> (r: bool)
        ensures
            r == !(*self is DoNotMerge),
    {
        match self {
            MergeBy::DoNotMerge => false,
            _ => true,
        }
    }
}

/// The figures of one analysis request, over node ids (group ids where merged).
pub struct AnalysedValues {
    pub minimal_quorums: Vec<Vec<usize>>,
    pub minimal_quorums_size: usize,
    pub has_intersection: bool,
    pub minimal_blocking_sets: Vec<Vec<usize>>,
    pub minimal_blocking_sets_size: usize,
    pub smallest_blocking_set_size: usize,
    pub minimal_splitting_sets: Vec<Vec<usize>>,
    pub minimal_splitting_sets_size: usize,
    pub smallest_splitting_set_size: usize,
    pub top_tier: Vec<usize>,
    pub top_tier_size: usize,
    pub symmetric_top_tier_exists: bool,
    pub cache_hit: bool,
}

/// The grouping as a sequence of group ids by node id, if there is one.
pub open spec fn grouping_view(grouping: Option<&Vec<usize>>) -> Option<Seq<usize>> {
    match grouping {
        Some(ids) => Some(ids@),
        None => None,
    }
}

/// Each node set with its nodes replaced by their groups, where there is a grouping.
pub open spec fn grouped_view(s: Seq<Set<usize>>, grouping: Option<Seq<usize>>) -> Seq<
    Set<usize>,
> {
    match grouping {
        Some(ids) => Seq::new(s.len(), |i: int| group_set(ids, s[i])),
        None => s,
    }
}

/// Each node set without the inactive nodes.
pub open spec fn reduced_view(s: Seq<Set<usize>>, inactive: Set<usize>) -> Seq<Set<usize>> {
    Seq::new(s.len(), |i: int| s[i].difference(inactive))
}

/// `n` is the size of the smallest member of `r`, or 0 where `r` is empty.
pub open spec fn is_smallest_size(n: usize, r: Seq<Vec<usize>>) -> bool {
    &&& r.len() == 0 ==> n == 0
    &&& r.len() > 0 ==> exists|j: int| 0 <= j < r.len() && (#[trigger] r[j])@.len() == n
    &&& forall|j: int| 0 <= j < r.len() ==> n <= (#[trigger] r[j])@.len()
}

/// A symmetric top tier exists when quorums intersect and the symmetric
/// clusters form exactly one cluster (merging maps clusters one to one).
pub open spec fn symmetric_top_tier_spec(has_intersection: bool, clusters: nat) -> bool {
    has_intersection && clusters == 1
}

/// What a request yields from `s`, apart from the cache flag.
pub open spec fn post_processed(
    r: AnalysedValues,
    s: Snapshot,
    grouping: Option<Seq<usize>>,
    inactive: Set<usize>,
) -> bool {
    &&& sets_wf(r.minimal_quorums@)
    &&& sets_wf(r.minimal_blocking_sets@)
    &&& sets_wf(r.minimal_splitting_sets@)
    &&& is_minimal_collection(
        r.minimal_quorums@,
        grouped_view(set_view(s.minimal_quorums@), grouping),
    )
    &&& is_minimal_collection(
        r.minimal_blocking_sets@,
        grouped_view(reduced_view(set_view(s.minimal_blocking_sets@), inactive), grouping),
    )
    &&& is_minimal_collection(
        r.minimal_splitting_sets@,
        grouped_view(set_view(s.minimal_splitting_sets@), grouping),
    )
    &&& r.minimal_quorums_size == r.minimal_quorums@.len()
    &&& r.minimal_blocking_sets_size == r.minimal_blocking_sets@.len()
    &&& r.minimal_splitting_sets_size == r.minimal_splitting_sets@.len()
    &&& is_smallest_size(r.smallest_blocking_set_size, r.minimal_blocking_sets@)
    &&& is_smallest_size(r.smallest_splitting_set_size, r.minimal_splitting_sets@)
    &&& r.top_tier@.no_duplicates()
    &&& nodes(r.top_tier) == match grouping {
        Some(ids) => group_set(ids, nodes(s.top_tier)),
        None => nodes(s.top_tier),
    }
    &&& r.top_tier_size == r.top_tier@.len()
    &&& r.has_intersection == s.has_quorum_intersection
    &&& r.symmetric_top_tier_exists == symmetric_top_tier_spec(
        s.has_quorum_intersection,
        s.symmetric_clusters@.len(),
    )
}

proof fn lemma_grouped_view(ids: Seq<usize>, c: Seq<Vec<usize>>, m: Seq<Vec<usize>>)
    requires
        m.len() == c.len(),
        forall|i: int| 0 <= i < c.len() ==> nodes(#[trigger] m[i]) == merged_nodes(ids, c[i]@),
    ensures
        set_view(m) == grouped_view(set_view(c), Some(ids)),
{
    let g = grouped_view(set_view(c), Some(ids));
    assert forall|i: int| 0 <= i < m.len() implies #[trigger] set_view(m)[i] == g[i] by {
        assert(nodes(m[i]) == merged_nodes(ids, c[i]@));
    }
    assert(set_view(m) =~= g);
}

/// With no inactive nodes and no grouping, the reduced blocking sets are exactly
/// the engine's: every engine set is listed, and every listed set is an engine set.
pub proof fn lemma_no_inactive_keeps_engine_sets(r: Seq<Vec<usize>>, c: Seq<Vec<usize>>)
    requires
        is_antichain(c),
        is_minimal_collection(r, reduced_view(set_view(c), Set::<usize>::empty())),
    ensures
        forall|i: int| 0 <= i < c.len() ==> listed_in(nodes(#[trigger] c[i]), r),
        forall|j: int| 0 <= j < r.len() ==> member_of(#[trigger] r[j], set_view(c)),
{
    let s = reduced_view(set_view(c), Set::<usize>::empty());
    assert forall|i: int| 0 <= i < s.len() implies #[trigger] s[i] == set_view(c)[i] by {
        assert(s[i] =~= set_view(c)[i]);
    }
    assert(s =~= set_view(c));
    lemma_minimal_collection_exact(r, s);
    assert forall|i: int| 0 <= i < c.len() implies listed_in(nodes(#[trigger] c[i]), r) by {
        assert forall|k: int| 0 <= k < s.len() && (#[trigger] s[k]).subset_of(s[i]) implies s[k]
            == s[i] by {
            assert(nodes(c[k]).subset_of(nodes(c[i])));
            if k != i {
                assert(!nodes(c[k]).subset_of(nodes(c[i])));
            }
        }
        assert(minimal_member(s[i], s));
    }
}

/// Merges a collection by group where there is a grouping, then re-minimizes it.
pub fn regroup(c: &Vec<Vec<usize>>, grouping: Option<&Vec<usize>>) -> (r: Vec<Vec<usize>>)
    requires
        sets_wf(c@),
    ensures
        sets_wf(r@),
        is_minimal_collection(r@, grouped_view(set_view(c@), grouping_view(grouping))),
{
    match grouping {
        Some(ids) => {
            let m = merged_by_group(ids, c);
            let r = minimal_sets(&m);
            proof {
                lemma_minimization_of_sets(r@, m@);
                lemma_grouped_view(ids@, c@, m@);
            }
            r
        },
        None => {
            let r = minimal_sets(c);
            proof {
                lemma_minimization_of_sets(r@, c@);
            }
            r
        },
    }
}

/// The size of the smallest member, or 0 for an empty collection (a network that
/// no coalition can block or split).
pub fn smallest_set_size(c: &Vec<Vec<usize>>) -> (r: usize)
    ensures
        is_smallest_size(r, c@),
{
    if c.len() == 0 {
        return 0;
    }
    let mut best: usize = c[0].len();
    let mut i: usize = 1;
    while i < c.len()
        invariant
            1 <= i <= c.len(),
            exists|j: int| 0 <= j < i && (#[trigger] c@[j])@.len() == best,
            forall|j: int| 0 <= j < i ==> best <= (#[trigger] c@[j])@.len(),
        decreases c.len() - i,
    {
        if c[i].len() < best {
            best = c[i].len();
            assert(c@[i as int]@.len() == best);
        }
        i = i + 1;
    }
    best
}

/// Whether a symmetric top tier exists.
pub fn symmetric_top_tier_exists(has_intersection: bool, clusters: usize) -> (r: bool)
    ensures
        r == symmetric_top_tier_spec(has_intersection, clusters as nat),
{
    has_intersection && clusters == 1
}

/// Turns a snapshot into the figures of a request: the blocking sets lose the
/// inactive nodes, every collection is merged by group where there is a grouping
/// and re-minimized, and the sizes are counted.
pub fn post_process(
    s: &Snapshot,
    grouping: Option<&Vec<usize>>,
    inactive: &Vec<usize>,
    cache_hit: bool,
) -> (r: AnalysedValues)
    requires
        s.wf(),
    ensures
        post_processed(r, *s, grouping_view(grouping), nodes(*inactive)),
        r.cache_hit == cache_hit,
{
    let minimal_quorums = regroup(&s.minimal_quorums, grouping);
    let reduced = without_nodes(&s.minimal_blocking_sets, inactive);
    let minimal_blocking_sets = regroup(&reduced, grouping);
    let minimal_splitting_sets = regroup(&s.minimal_splitting_sets, grouping);
    let top_tier = match grouping {
        Some(ids) => merge_node_set(ids, &s.top_tier),
        None => copy_nodes(&s.top_tier),
    };
    let smallest_blocking_set_size = smallest_set_size(&minimal_blocking_sets);
    let smallest_splitting_set_size = smallest_set_size(&minimal_splitting_sets);
    let symmetric = symmetric_top_tier_exists(
        s.has_quorum_intersection,
        s.symmetric_clusters.len(),
    );
    proof {
        assert(set_view(reduced@) =~= reduced_view(
            set_view(s.minimal_blocking_sets@),
            nodes(*inactive),
        ));
    }
    AnalysedValues {
        minimal_quorums_size: minimal_quorums.len(),
        minimal_quorums,
        has_intersection: s.has_quorum_intersection,
        minimal_blocking_sets_size: minimal_blocking_sets.len(),
        minimal_blocking_sets,
        smallest_blocking_set_size,
        minimal_splitting_sets_size: minimal_splitting_sets.len(),
        minimal_splitting_sets,
        smallest_splitting_set_size,
        top_tier_size: top_tier.len(),
        top_tier,
        symmetric_top_tier_exists: symmetric,
        cache_hit,
    }
}

/// Serves one request on a cache that only this caller uses: looks the canonical
/// key of `fbas` up, runs the engine on a miss and records the result, then
/// post-processes the cached snapshot, which is the analysis of `fbas`.
pub fn analysis(
    cache: &mut ResultCache,
    fbas: &StandardFbas,
    grouping: Option<&Vec<usize>>,
    inactive: &Vec<usize>,
) -> (r: AnalysedValues)
    requires
        old(cache).wf(),
    ensures
        final(cache).wf(),
        r.cache_hit == old(cache).has_key(fbas.key()),
        exists|i: int|
            0 <= i < final(cache).size() && final(cache).key_at(i) == fbas.key()
                && (#[trigger] final(cache).value_at(i)).is_analysis_of(fbas.key())
                && post_processed(
                r,
                final(cache).value_at(i),
                grouping_view(grouping),
                nodes(*inactive),
            ),
        r.cache_hit ==> *final(cache) == *old(cache),
        !r.cache_hit ==> final(cache).size() == old(cache).size() + 1,
        forall|i: int|
            0 <= i < old(cache).size() ==> final(cache).key_at(i) == old(cache).key_at(i)
                && final(cache).value_at(i) == old(cache).value_at(i),
{
    let (i, hit) = analysis_with_cache(cache, fbas);
    let s = cache.get(i);
    let r = post_process(s, grouping, inactive, hit);
    assert(post_processed(r, cache.value_at(i as int), grouping_view(grouping), nodes(*inactive)));
    r
}

} // verus!
