//! Node sets and collections of node sets, with the re-minimization primitive
//! shared by every transformation of the pipeline.

use vstd::prelude::*;

verus! {

/// The nodes that a node-set vector holds.
pub open spec fn nodes(v: Vec<usize>) -> Set<usize> {
    v@.to_set()
}

/// Every member of the collection lists each of its nodes once.
pub open spec fn sets_wf(c: Seq<Vec<usize>>) -> bool {
    forall|i: int| 0 <= i < c.len() ==> (#[trigger] c[i])@.no_duplicates()
}

/// No member of the collection is a subset of another member (which also rules
/// out two members holding the same nodes).
pub open spec fn is_antichain(c: Seq<Vec<usize>>) -> bool {
    forall|i: int, j: int|
        #![trigger c[i], c[j]]
        0 <= i < c.len() && 0 <= j < c.len() && i != j ==> !nodes(c[i]).subset_of(nodes(c[j]))
}

/// `v` lists exactly the nodes of some member of `c`.
pub open spec fn drawn_member(v: Vec<usize>, c: Seq<Vec<usize>>) -> bool {
    exists|i: int| 0 <= i < c.len() && v@ == #[trigger] c[i]@
}

/// Every member of `r` lists exactly the nodes of some member of `c`.
pub open spec fn drawn_from(r: Seq<Vec<usize>>, c: Seq<Vec<usize>>) -> bool {
    forall|j: int| 0 <= j < r.len() ==> drawn_member(#[trigger] r[j], c)
}

/// Some member of `r` is a subset of `v`.
pub open spec fn covered_by(v: Vec<usize>, r: Seq<Vec<usize>>) -> bool {
    exists|j: int| 0 <= j < r.len() && (#[trigger] nodes(r[j])).subset_of(nodes(v))
}

/// Every member of `c` contains some member of `r`.
pub open spec fn covers(r: Seq<Vec<usize>>, c: Seq<Vec<usize>>) -> bool {
    forall|i: int| 0 <= i < c.len() ==> covered_by(#[trigger] c[i], r)
}

/// `r` is a minimization of `c`: an antichain of members of `c` below every member of `c`.
pub open spec fn is_minimization(r: Seq<Vec<usize>>, c: Seq<Vec<usize>>) -> bool {
    is_antichain(r) && drawn_from(r, c) && covers(r, c)
}

/// The node sets of a collection.
pub open spec fn set_view(c: Seq<Vec<usize>>) -> Seq<Set<usize>> {
    Seq::new(c.len(), |i: int| nodes(c[i]))
}

/// `v` holds exactly the nodes of some member of `s`.
pub open spec fn member_of(v: Vec<usize>, s: Seq<Set<usize>>) -> bool {
    exists|i: int| 0 <= i < s.len() && nodes(v) == #[trigger] s[i]
}

/// Some member of `r` is a subset of `t`.
pub open spec fn below(t: Set<usize>, r: Seq<Vec<usize>>) -> bool {
    exists|j: int| 0 <= j < r.len() && (#[trigger] nodes(r[j])).subset_of(t)
}

/// `r` is the re-minimized form of the collection of node sets `s`: an antichain
/// of members of `s` such that every member of `s` contains one of them.
pub open spec fn is_minimal_collection(r: Seq<Vec<usize>>, s: Seq<Set<usize>>) -> bool {
    &&& is_antichain(r)
    &&& forall|j: int| 0 <= j < r.len() ==> member_of(#[trigger] r[j], s)
    &&& forall|i: int| 0 <= i < s.len() ==> below(#[trigger] s[i], r)
}

/// A minimization of `c` is the re-minimized form of its node sets.
pub proof fn lemma_minimization_of_sets(r: Seq<Vec<usize>>, c: Seq<Vec<usize>>)
    requires
        is_minimization(r, c),
    ensures
        is_minimal_collection(r, set_view(c)),
{
    let s = set_view(c);
    assert forall|j: int| 0 <= j < r.len() implies member_of(#[trigger] r[j], s) by {
        assert(drawn_member(r[j], c));
        let i = choose|i: int| 0 <= i < c.len() && r[j]@ == #[trigger] c[i]@;
        assert(nodes(r[j]) == s[i]);
    }
    assert forall|i: int| 0 <= i < s.len() implies below(#[trigger] s[i], r) by {
        assert(covered_by(c[i], r));
    }
}

/// No member of `s` is a strict subset of `t`.
pub open spec fn minimal_member(t: Set<usize>, s: Seq<Set<usize>>) -> bool {
    forall|k: int| 0 <= k < s.len() && (#[trigger] s[k]).subset_of(t) ==> s[k] == t
}

/// Some member of `r` holds exactly the nodes of `t`.
pub open spec fn listed_in(t: Set<usize>, r: Seq<Vec<usize>>) -> bool {
    exists|j: int| 0 <= j < r.len() && nodes(#[trigger] r[j]) == t
}

/// Minimality: in a re-minimized collection no member is a subset of another,
/// so no two members are equal and none strictly contains another; its members
/// are exactly the members of the input that strictly contain no other member.
pub proof fn lemma_minimal_collection_exact(r: Seq<Vec<usize>>, s: Seq<Set<usize>>)
    requires
        is_minimal_collection(r, s),
    ensures
        forall|i: int, j: int|
            #![trigger r[i], r[j]]
            0 <= i < r.len() && 0 <= j < r.len() && i != j ==> nodes(r[i]) != nodes(r[j])
                && !(nodes(r[i]).subset_of(nodes(r[j]))),
        forall|j: int, i: int|
            #![trigger r[j], s[i]]
            0 <= j < r.len() && 0 <= i < s.len() && s[i].subset_of(nodes(r[j])) ==> s[i]
                == nodes(r[j]),
        forall|i: int|
            0 <= i < s.len() && minimal_member(#[trigger] s[i], s) ==> listed_in(s[i], r),
{
    assert forall|j: int, i: int|
        #![trigger r[j], s[i]]
        0 <= j < r.len() && 0 <= i < s.len() && s[i].subset_of(nodes(r[j])) implies s[i]
            == nodes(r[j]) by {
        assert(below(s[i], r));
        let j2 = choose|j2: int| 0 <= j2 < r.len() && (#[trigger] nodes(r[j2])).subset_of(s[i]);
        assert(nodes(r[j2]).subset_of(nodes(r[j])));
        if j2 != j {
            assert(!nodes(r[j2]).subset_of(nodes(r[j])));
        }
        assert(nodes(r[j]).subset_of(s[i]));
        assert(s[i] =~= nodes(r[j]));
    }
    assert forall|i: int|
        0 <= i < s.len() && minimal_member(#[trigger] s[i], s) implies listed_in(s[i], r) by {
        assert(below(s[i], r));
        let j = choose|j: int| 0 <= j < r.len() && (#[trigger] nodes(r[j])).subset_of(s[i]);
        assert(member_of(r[j], s));
        let k = choose|k: int| 0 <= k < s.len() && nodes(r[j]) == #[trigger] s[k];
        assert(s[k].subset_of(s[i]));
        assert(nodes(r[j]) == s[i]);
    }
}

proof fn lemma_member_is_minimal(r: Seq<Vec<usize>>, s: Seq<Set<usize>>, j: int) -> (i: int)
    requires
        is_minimal_collection(r, s),
        0 <= j < r.len(),
    ensures
        0 <= i < s.len(),
        s[i] == nodes(r[j]),
        minimal_member(s[i], s),
{
    lemma_minimal_collection_exact(r, s);
    assert(member_of(r[j], s));
    let i = choose|i: int| 0 <= i < s.len() && nodes(r[j]) == #[trigger] s[i];
    assert forall|k: int| 0 <= k < s.len() && (#[trigger] s[k]).subset_of(s[i]) implies s[k]
        == s[i] by {
        assert(s[k].subset_of(nodes(r[j])));
    }
    i
}

proof fn lemma_minimal_is_listed(r: Seq<Vec<usize>>, s: Seq<Set<usize>>, i: int)
    requires
        is_minimal_collection(r, s),
        0 <= i < s.len(),
        minimal_member(s[i], s),
    ensures
        listed_in(s[i], r),
{
    lemma_minimal_collection_exact(r, s);
}

proof fn lemma_minimal_listed_in_other(r1: Seq<Vec<usize>>, r2: Seq<Vec<usize>>, s: Seq<Set<usize>>)
    requires
        is_minimal_collection(r1, s),
        is_minimal_collection(r2, s),
    ensures
        forall|j: int| 0 <= j < r1.len() ==> listed_in(nodes(#[trigger] r1[j]), r2),
{
    assert forall|j: int| 0 <= j < r1.len() implies listed_in(nodes(#[trigger] r1[j]), r2) by {
        let i = lemma_member_is_minimal(r1, s, j);
        lemma_minimal_is_listed(r2, s, i);
    }
}

/// Re-minimization is unique up to order: two re-minimized forms of the same
/// collection list the same node sets.
pub proof fn lemma_minimal_collections_agree(
    r1: Seq<Vec<usize>>,
    r2: Seq<Vec<usize>>,
    s: Seq<Set<usize>>,
)
    requires
        is_minimal_collection(r1, s),
        is_minimal_collection(r2, s),
    ensures
        forall|j: int| 0 <= j < r1.len() ==> listed_in(nodes(#[trigger] r1[j]), r2),
        forall|j: int| 0 <= j < r2.len() ==> listed_in(nodes(#[trigger] r2[j]), r1),
{
    lemma_minimal_listed_in_other(r1, r2, s);
    lemma_minimal_listed_in_other(r2, r1, s);
}

/// An empty member absorbs every other: where `s` holds the empty set (a network
/// that is already blocked), its re-minimized form is that one empty set.
pub proof fn lemma_empty_member_absorbs(r: Seq<Vec<usize>>, s: Seq<Set<usize>>, e: int)
    requires
        is_minimal_collection(r, s),
        0 <= e < s.len(),
        s[e] == Set::<usize>::empty(),
    ensures
        r.len() == 1,
        nodes(r[0]) == Set::<usize>::empty(),
{
    lemma_minimal_collection_exact(r, s);
    assert(minimal_member(s[e], s)) by {
        assert forall|k: int| 0 <= k < s.len() && (#[trigger] s[k]).subset_of(s[e]) implies s[k]
            == s[e] by {
            assert(s[k] =~= s[e]);
        }
    }
    let j = choose|j: int| 0 <= j < r.len() && nodes(#[trigger] r[j]) == s[e];
    assert(r.len() == 1) by {
        if r.len() > 1 {
            let k: int = if j == 0 { 1 } else { 0 };
            assert(nodes(r[j]).subset_of(nodes(r[k])));
        }
    }
}

/// Whether `x` is one of the nodes of `s`.
pub fn contains_node(s: &Vec<usize>, x: usize) -> (r: bool)
    ensures
        r == nodes(*s).contains(x),
{
    let mut i: usize = 0;
    while i < s.len()
        invariant
            0 <= i <= s.len(),
            forall|k: int| 0 <= k < i ==> s@[k] != x,
        decreases s.len() - i,
    {
        if s[i] == x {
            assert(s@.contains(x));
            return true;
        }
        i = i + 1;
    }
    false
}

/// Whether every node of `a` is a node of `b`.
pub fn is_subset(a: &Vec<usize>, b: &Vec<usize>) -> (r: bool)
    ensures
        r == nodes(*a).subset_of(nodes(*b)),
{
    let mut i: usize = 0;
    while i < a.len()
        invariant
            0 <= i <= a.len(),
            forall|k: int| 0 <= k < i ==> b@.contains(#[trigger] a@[k]),
        decreases a.len() - i,
    {
        if !contains_node(b, a[i]) {
            assert(a@.contains(a@[i as int]));
            return false;
        }
        i = i + 1;
    }
    true
}

/// A copy of a node-set vector.
pub fn copy_nodes(s: &Vec<usize>) -> (r: Vec<usize>)
    ensures
        r@ == s@,
{
    let mut r: Vec<usize> = Vec::new();
    let mut i: usize = 0;
    while i < s.len()
        invariant
            0 <= i <= s.len(),
            r@ == s@.subrange(0, i as int),
        decreases s.len() - i,
    {
        r.push(s[i]);
        i = i + 1;
        assert(r@ =~= s@.subrange(0, i as int));
    }
    assert(r@ =~= s@);
    r
}

/// Re-minimization: drops every member that equals an earlier member or
/// strictly contains another member, keeping the others in input order.
pub fn minimal_sets(c: &Vec<Vec<usize>>) -> (r: Vec<Vec<usize>>)
    requires
        sets_wf(c@),
    ensures
        sets_wf(r@),
        is_minimization(r@, c@),
{
    let mut out: Vec<Vec<usize>> = Vec::new();
    let ghost mut origin: Seq<int> = Seq::empty();
    let mut idx: usize = 0;
    while idx < c.len()
        invariant
            0 <= idx <= c.len(),
            sets_wf(c@),
            is_antichain(out@),
            origin.len() == out@.len(),
            forall|j: int|
                0 <= j < out@.len() ==> 0 <= #[trigger] origin[j] < c@.len() && out@[j]@
                    == c@[origin[j]]@,
            forall|i: int|
                #![trigger c@[i]]
                0 <= i < idx ==> exists|j: int|
                    #![trigger out@[j]]
                    0 <= j < out@.len() && nodes(out@[j]).subset_of(nodes(c@[i])),
        decreases c.len() - idx,
    {
        let cand = &c[idx];
        let mut covered = false;
        let mut w: usize = 0;
        let mut k: usize = 0;
        while k < out.len()
            invariant
                0 <= k <= out.len(),
                covered ==> 0 <= w < out.len() && nodes(out@[w as int]).subset_of(nodes(*cand)),
                !covered ==> forall|m: int|
                    0 <= m < k ==> !(#[trigger] nodes(out@[m])).subset_of(nodes(*cand)),
            decreases out.len() - k,
        {
            if !covered && is_subset(&out[k], cand) {
                covered = true;
                w = k;
            }
            k = k + 1;
        }
        if covered {
            assert(nodes(out@[w as int]).subset_of(nodes(c@[idx as int])));
        } else {
            let mut kept: Vec<Vec<usize>> = Vec::new();
            let ghost mut src: Seq<int> = Seq::empty();
            let mut m: usize = 0;
            while m < out.len()
                invariant
                    0 <= m <= out.len(),
                    is_antichain(out@),
                    src.len() == kept@.len(),
                    forall|a: int|
                        0 <= a < kept@.len() ==> 0 <= #[trigger] src[a] < m && kept@[a]@
                            == out@[src[a]]@ && !nodes(*cand).subset_of(nodes(out@[src[a]])),
                    forall|a: int, b: int| 0 <= a < b < src.len() ==> src[a] < src[b],
                    forall|b: int|
                        0 <= b < m ==> nodes(*cand).subset_of(nodes(#[trigger] out@[b])) || exists|
                            a: int,
                        | 0 <= a < src.len() && src[a] == b,
                decreases out.len() - m,
            {
                if !is_subset(cand, &out[m]) {
                    let v = copy_nodes(&out[m]);
                    kept.push(v);
                    proof {
                        let ghost old_src = src;
                        src = src.push(m as int);
                        assert(src[src.len() - 1] == m);
                        assert forall|b: int|
                            0 <= b < m + 1 implies nodes(*cand).subset_of(
                                nodes(#[trigger] out@[b]),
                            ) || exists|a: int| 0 <= a < src.len() && src[a] == b by {
                            if b < m && !nodes(*cand).subset_of(nodes(out@[b])) {
                                let a = choose|a: int| 0 <= a < old_src.len() && old_src[a] == b;
                                assert(src[a] == old_src[a]);
                            }
                        }
                    }
                }
                m = m + 1;
            }
            assert forall|a: int, b: int|
                #![trigger kept@[a], kept@[b]]
                0 <= a < kept@.len() && 0 <= b < kept@.len() && a != b implies !nodes(
                    kept@[a],
                ).subset_of(nodes(kept@[b])) by {
                assert(src[a] != src[b]);
                assert(nodes(kept@[a]) == nodes(out@[src[a]]));
                assert(nodes(kept@[b]) == nodes(out@[src[b]]));
            }
            let ghost old_out = out@;
            let ghost before = kept@;
            kept.push(copy_nodes(cand));
            let last = kept.len() - 1;
            assert(kept@[last as int]@ == c@[idx as int]@);
            assert forall|a: int, b: int|
                #![trigger kept@[a], kept@[b]]
                0 <= a < kept@.len() && 0 <= b < kept@.len() && a != b implies !nodes(
                    kept@[a],
                ).subset_of(nodes(kept@[b])) by {
                if a < before.len() && b < before.len() {
                    assert(kept@[a] == before[a] && kept@[b] == before[b]);
                } else if a < before.len() {
                    assert(kept@[a] == before[a]);
                    assert(nodes(kept@[a]) == nodes(old_out[src[a]]));
                    assert(nodes(kept@[b]) == nodes(*cand));
                } else {
                    assert(kept@[b] == before[b]);
                    assert(nodes(kept@[b]) == nodes(old_out[src[b]]));
                    assert(nodes(kept@[a]) == nodes(*cand));
                }
            }
            let ghost new_origin = Seq::new(
                kept@.len() as nat,
                |a: int|
                    if a < before.len() {
                        origin[src[a]]
                    } else {
                        idx as int
                    },
            );
            assert forall|a: int|
                0 <= a < kept@.len() implies 0 <= #[trigger] new_origin[a] < c@.len() && kept@[a]@
                    == c@[new_origin[a]]@ by {
                if a < before.len() {
                    assert(kept@[a] == before[a]);
                    assert(old_out[src[a]]@ == c@[origin[src[a]]]@);
                }
            }
            assert forall|i: int|
                #![trigger c@[i]]
                0 <= i < idx + 1 implies exists|j: int|
                    #![trigger kept@[j]]
                    0 <= j < kept@.len() && nodes(kept@[j]).subset_of(nodes(c@[i])) by {
                if i == idx {
                    assert(nodes(kept@[last as int]) == nodes(c@[i]));
                } else {
                    let j = choose|j: int|
                        0 <= j < old_out.len() && nodes(old_out[j]).subset_of(nodes(c@[i]));
                    if nodes(*cand).subset_of(nodes(old_out[j])) {
                        assert(nodes(kept@[last as int]) == nodes(*cand));
                    } else {
                        let a = choose|a: int| 0 <= a < src.len() && src[a] == j;
                        assert(kept@[a] == before[a]);
                    }
                }
            }
            out = kept;
            proof {
                origin = new_origin;
            }
        }
        idx = idx + 1;
    }
    assert forall|j: int| 0 <= j < out@.len() implies (#[trigger] out@[j])@.no_duplicates() by {
        assert(c@[origin[j]]@.no_duplicates());
    }
    assert forall|j: int| 0 <= j < out@.len() implies drawn_member(#[trigger] out@[j], c@) by {
        assert(out@[j]@ == c@[origin[j]]@);
    }
    assert forall|i: int| 0 <= i < c@.len() implies covered_by(#[trigger] c@[i], out@) by {
        assert(0 <= i < idx);
    }
    out
}

} // verus!
