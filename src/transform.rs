//! The two node-level transformations applied before re-minimization: removing
//! nodes already known to be inactive, and replacing nodes by their group.

use vstd::prelude::*;
use crate::sets::{contains_node, nodes, sets_wf};

verus! {

/// The group that stands for node `n`: `merged_ids[n]` where the grouping maps
/// `n`, otherwise `n` itself (an ungrouped node is a group of its own).
pub open spec fn group_of(merged_ids: Seq<usize>, n: usize) -> usize {
    if n < merged_ids.len() {
        merged_ids[n as int]
    } else {
        n
    }
}

/// The groups of the nodes in `s`.
pub open spec fn group_set(merged_ids: Seq<usize>, s: Set<usize>) -> Set<usize> {
    s.map(|n: usize| group_of(merged_ids, n))
}

/// The groups of the nodes of `s`.
pub open spec fn merged_nodes(merged_ids: Seq<usize>, s: Seq<usize>) -> Set<usize> {
    group_set(merged_ids, s.to_set())
}

proof fn lemma_contains_push(q: Seq<usize>, x: usize)
    ensures
        forall|y: usize| #[trigger] q.push(x).contains(y) <==> (q.contains(y) || y == x),
{
    assert forall|y: usize| #[trigger] q.push(x).contains(y) <==> (q.contains(y) || y == x) by {
        if q.push(x).contains(y) {
            let k = choose|k: int| 0 <= k < q.push(x).len() && q.push(x)[k] == y;
            if k < q.len() {
                assert(q[k] == y);
            }
        }
        if q.contains(y) {
            let k = choose|k: int| 0 <= k < q.len() && q[k] == y;
            assert(q.push(x)[k] == y);
        }
        if y == x {
            assert(q.push(x)[q.len() as int] == x);
        }
    }
}

/// The nodes of `s` that are not in `inactive`, each once if `s` lists each once.
pub fn remove_nodes(s: &Vec<usize>, inactive: &Vec<usize>) -> (r: Vec<usize>)
    ensures
        nodes(r) == nodes(*s).difference(nodes(*inactive)),
        s@.no_duplicates() ==> r@.no_duplicates(),
{
    let mut r: Vec<usize> = Vec::new();
    let mut i: usize = 0;
    while i < s.len()
        invariant
            0 <= i <= s.len(),
            forall|x: usize|
                r@.contains(x) <==> (s@.subrange(0, i as int).contains(x) && !inactive@.contains(
                    x,
                )),
            s@.no_duplicates() ==> r@.no_duplicates(),
        decreases s.len() - i,
    {
        let x = s[i];
        let ghost before = r@;
        let ghost pre = s@.subrange(0, i as int);
        proof {
            assert(s@.subrange(0, i + 1) =~= pre.push(x));
            lemma_contains_push(pre, x);
            lemma_contains_push(before, x);
        }
        if !contains_node(inactive, x) {
            proof {
                if s@.no_duplicates() {
                    assert(!pre.contains(x)) by {
                        if pre.contains(x) {
                            let k = choose|k: int| 0 <= k < pre.len() && pre[k] == x;
                            assert(s@[k] == s@[i as int]);
                        }
                    }
                }
            }
            r.push(x);
        }
        i = i + 1;
    }
    assert(s@.subrange(0, s@.len() as int) =~= s@);
    assert(nodes(r) =~= nodes(*s).difference(nodes(*inactive)));
    r
}

/// Faulty-node reduction before re-minimization: each member with the inactive
/// nodes taken out. A member made only of inactive nodes becomes empty and stays.
pub fn without_nodes(c: &Vec<Vec<usize>>, inactive: &Vec<usize>) -> (r: Vec<Vec<usize>>)
    requires
        sets_wf(c@),
    ensures
        sets_wf(r@),
        r@.len() == c@.len(),
        forall|i: int|
            0 <= i < c@.len() ==> nodes(#[trigger] r@[i]) == nodes(c@[i]).difference(
                nodes(*inactive),
            ),
{
    let mut r: Vec<Vec<usize>> = Vec::new();
    let mut i: usize = 0;
    while i < c.len()
        invariant
            0 <= i <= c.len(),
            sets_wf(c@),
            sets_wf(r@),
            r@.len() == i,
            forall|k: int|
                0 <= k < i ==> nodes(#[trigger] r@[k]) == nodes(c@[k]).difference(
                    nodes(*inactive),
                ),
        decreases c.len() - i,
    {
        assert(c@[i as int]@.no_duplicates());
        let v = remove_nodes(&c[i], inactive);
        r.push(v);
        i = i + 1;
    }
    r
}

/// The groups of the nodes of `s`, each once.
pub fn merge_node_set(merged_ids: &Vec<usize>, s: &Vec<usize>) -> (r: Vec<usize>)
    ensures
        nodes(r) == merged_nodes(merged_ids@, s@),
        r@.no_duplicates(),
{
    let mut r: Vec<usize> = Vec::new();
    let mut i: usize = 0;
    while i < s.len()
        invariant
            0 <= i <= s.len(),
            r@.no_duplicates(),
            forall|y: usize|
                r@.contains(y) <==> exists|k: int|
                    0 <= k < i && #[trigger] group_of(merged_ids@, s@[k]) == y,
        decreases s.len() - i,
    {
        let n = s[i];
        let g = if n < merged_ids.len() {
            merged_ids[n]
        } else {
            n
        };
        let ghost before = r@;
        proof {
            lemma_contains_push(before, g);
        }
        if !contains_node(&r, g) {
            r.push(g);
        }
        assert forall|y: usize|
            r@.contains(y) <==> exists|k: int|
                0 <= k < i + 1 && #[trigger] group_of(merged_ids@, s@[k]) == y by {
            if y == g {
                assert(group_of(merged_ids@, s@[i as int]) == y);
            }
            if exists|k: int| 0 <= k < i + 1 && #[trigger] group_of(merged_ids@, s@[k]) == y {
                let k = choose|k: int| 0 <= k < i + 1 && #[trigger] group_of(merged_ids@, s@[k]) == y;
                if k < i {
                    assert(before.contains(y));
                }
            }
        }
        i = i + 1;
    }
    assert forall|y: usize| nodes(r).contains(y) <==> merged_nodes(merged_ids@, s@).contains(y) by {
        if nodes(r).contains(y) {
            let k = choose|k: int| 0 <= k < s@.len() && #[trigger] group_of(merged_ids@, s@[k]) == y;
            assert(s@.to_set().contains(s@[k]));
        }
        if merged_nodes(merged_ids@, s@).contains(y) {
            let n = choose|n: usize| s@.to_set().contains(n) && group_of(merged_ids@, n) == y;
            let k = choose|k: int| 0 <= k < s@.len() && s@[k] == n;
            assert(group_of(merged_ids@, s@[k]) == y);
        }
    }
    assert(nodes(r) =~= merged_nodes(merged_ids@, s@));
    r
}

/// Each member with its nodes replaced by their groups, before re-minimization
/// (the result may hold duplicates and supersets).
pub fn merged_by_group(merged_ids: &Vec<usize>, c: &Vec<Vec<usize>>) -> (r: Vec<Vec<usize>>)
    ensures
        sets_wf(r@),
        r@.len() == c@.len(),
        forall|i: int|
            0 <= i < c@.len() ==> nodes(#[trigger] r@[i]) == merged_nodes(merged_ids@, c@[i]@),
{
    let mut r: Vec<Vec<usize>> = Vec::new();
    let mut i: usize = 0;
    while i < c.len()
        invariant
            0 <= i <= c.len(),
            sets_wf(r@),
            r@.len() == i,
            forall|k: int|
                0 <= k < i ==> nodes(#[trigger] r@[k]) == merged_nodes(merged_ids@, c@[k]@),
        decreases c.len() - i,
    {
        let v = merge_node_set(merged_ids, &c[i]);
        r.push(v);
        i = i + 1;
    }
    r
}

} // verus!
