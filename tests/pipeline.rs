use fbas_analyzer::{Fbas, QuorumSet};
use fbas_pipeline::cache::{analyse, analysis_with_cache, ResultCache, Snapshot};
use fbas_pipeline::engine::{same_bytes, usable_keys, StandardFbas};
use fbas_pipeline::pipeline::{
    analysis, post_process, regroup, smallest_set_size, symmetric_top_tier_exists, MergeBy,
};
use fbas_pipeline::sets::{contains_node, is_subset, minimal_sets};
use fbas_pipeline::transform::{merge_node_set, merged_by_group, remove_nodes, without_nodes};

const THREE_NODES: &str = r#"[
    {"publicKey": "A", "quorumSet": {"threshold": 2, "validators": ["A", "B", "C"]}},
    {"publicKey": "B", "quorumSet": {"threshold": 2, "validators": ["A", "B", "C"]}},
    {"publicKey": "C", "quorumSet": {"threshold": 2, "validators": ["A", "B", "C"]}}
]"#;

const THREE_NODES_REORDERED: &str = r#"[
    {"publicKey": "C", "quorumSet": {"threshold": 2, "validators": ["C", "A", "B"]}},
    {"publicKey": "A", "quorumSet": {"validators": ["B", "A", "C"], "threshold": 2}},
    {"publicKey": "B", "quorumSet": {"threshold": 2, "validators": ["A", "C", "B"]}}
]"#;

fn standard(json: &str) -> StandardFbas {
    StandardFbas::standardize(&Fbas::from_json_str(json)).unwrap()
}

fn sorted(c: &[Vec<usize>]) -> Vec<Vec<usize>> {
    let mut r: Vec<Vec<usize>> = c
        .iter()
        .map(|s| {
            let mut s = s.clone();
            s.sort();
            s
        })
        .collect();
    r.sort();
    r
}

fn snapshot(quorums: Vec<Vec<usize>>, blocking: Vec<Vec<usize>>, clusters: usize) -> Snapshot {
    let cluster = QuorumSet {
        threshold: 2,
        validators: vec![0, 1, 2],
        inner_quorum_sets: vec![],
    };
    Snapshot {
        minimal_quorums: quorums,
        minimal_blocking_sets: blocking.clone(),
        minimal_splitting_sets: blocking,
        top_tier: vec![0, 1, 2],
        has_quorum_intersection: true,
        symmetric_clusters: vec![cluster; clusters],
    }
}

#[test]
fn node_set_membership_and_inclusion() {
    assert!(contains_node(&vec![4, 2], 2));
    assert!(!contains_node(&vec![4, 2], 3));
    assert!(is_subset(&vec![2], &vec![4, 2]));
    assert!(is_subset(&vec![], &vec![1]));
    assert!(!is_subset(&vec![1, 2], &vec![2]));
}

#[test]
fn minimal_sets_drops_supersets_and_duplicates() {
    let c = vec![vec![0, 1], vec![0, 2, 3], vec![3], vec![0, 1, 4, 5], vec![1, 0]];
    assert_eq!(minimal_sets(&c), vec![vec![0, 1], vec![3]]);
}

#[test]
fn minimal_sets_of_empty_collection_is_empty() {
    assert_eq!(minimal_sets(&vec![]), Vec::<Vec<usize>>::new());
}

#[test]
fn minimal_sets_keeps_only_the_empty_set() {
    let c = vec![vec![1], vec![], vec![2, 3], vec![]];
    assert_eq!(minimal_sets(&c), vec![Vec::<usize>::new()]);
}

#[test]
fn minimal_sets_result_is_an_antichain() {
    let c = vec![vec![5, 6], vec![6], vec![1, 2], vec![2, 1, 7], vec![5]];
    let r = minimal_sets(&c);
    for (i, a) in r.iter().enumerate() {
        for (j, b) in r.iter().enumerate() {
            if i != j {
                assert!(!is_subset(a, b));
            }
        }
    }
    assert_eq!(sorted(&r), vec![vec![1, 2], vec![5], vec![6]]);
}

#[test]
fn remove_nodes_takes_out_inactive_nodes() {
    assert_eq!(remove_nodes(&vec![0, 1, 2], &vec![1, 7]), vec![0, 2]);
}

#[test]
fn without_nodes_reduces_each_member_and_keeps_empty_ones() {
    let c = vec![vec![0, 1], vec![0, 2], vec![1, 2]];
    let r = without_nodes(&c, &vec![0, 1]);
    assert_eq!(r, vec![vec![], vec![2], vec![2]]);
}

#[test]
fn merge_node_set_maps_to_groups_once() {
    let ids = vec![0, 0, 2];
    assert_eq!(merge_node_set(&ids, &vec![0, 1]), vec![0]);
    assert_eq!(merge_node_set(&ids, &vec![1, 2]), vec![0, 2]);
    // a node the grouping does not cover is a group of its own
    assert_eq!(merge_node_set(&ids, &vec![2, 9]), vec![2, 9]);
}

#[test]
fn merged_by_group_keeps_duplicates_until_reminimized() {
    let ids = vec![0, 0, 2];
    let c = vec![vec![0, 1], vec![0, 2], vec![1, 2]];
    assert_eq!(merged_by_group(&ids, &c), vec![vec![0], vec![0, 2], vec![0, 2]]);
    assert_eq!(regroup(&c, Some(&ids)), vec![vec![0]]);
    assert_eq!(regroup(&c, None), c);
}

#[test]
fn smallest_set_size_exact_values() {
    assert_eq!(smallest_set_size(&vec![]), 0);
    assert_eq!(smallest_set_size(&vec![vec![1, 2, 3], vec![4, 5], vec![6, 7, 8]]), 2);
    assert_eq!(smallest_set_size(&vec![vec![1], vec![]]), 0);
}

#[test]
fn symmetric_top_tier_needs_intersection_and_one_cluster() {
    assert!(symmetric_top_tier_exists(true, 1));
    assert!(!symmetric_top_tier_exists(false, 1));
    assert!(!symmetric_top_tier_exists(true, 0));
    assert!(!symmetric_top_tier_exists(true, 2));
}

#[test]
fn merge_by_policy() {
    assert!(!MergeBy::DoNotMerge.merges());
    assert!(MergeBy::Orgs.merges());
    assert!(MergeBy::ISPs.merges());
    assert!(MergeBy::Countries.merges());
}

#[test]
fn post_process_without_grouping() {
    let all_pairs = vec![vec![0, 1], vec![0, 2], vec![1, 2]];
    let s = snapshot(all_pairs.clone(), all_pairs.clone(), 1);
    let r = post_process(&s, None, &vec![], false);
    assert_eq!(sorted(&r.minimal_quorums), all_pairs);
    assert_eq!(r.minimal_quorums_size, 3);
    assert_eq!(sorted(&r.minimal_blocking_sets), all_pairs);
    assert_eq!(r.smallest_blocking_set_size, 2);
    assert_eq!(r.smallest_splitting_set_size, 2);
    assert_eq!(r.top_tier, vec![0, 1, 2]);
    assert_eq!(r.top_tier_size, 3);
    assert!(r.has_intersection);
    assert!(r.symmetric_top_tier_exists);
    assert!(!r.cache_hit);
}

#[test]
fn post_process_reduces_blocking_sets_only() {
    let all_pairs = vec![vec![0, 1], vec![0, 2], vec![1, 2]];
    let s = snapshot(all_pairs.clone(), all_pairs.clone(), 2);
    let r = post_process(&s, None, &vec![0], true);
    assert_eq!(sorted(&r.minimal_blocking_sets), vec![vec![1], vec![2]]);
    assert_eq!(r.smallest_blocking_set_size, 1);
    assert_eq!(sorted(&r.minimal_quorums), all_pairs);
    assert_eq!(sorted(&r.minimal_splitting_sets), all_pairs);
    assert!(!r.symmetric_top_tier_exists);
    assert!(r.cache_hit);
}

#[test]
fn post_process_already_blocked_network() {
    let all_pairs = vec![vec![0, 1], vec![0, 2], vec![1, 2]];
    let s = snapshot(all_pairs.clone(), all_pairs, 1);
    let r = post_process(&s, None, &vec![0, 1], false);
    assert_eq!(r.minimal_blocking_sets, vec![Vec::<usize>::new()]);
    assert_eq!(r.minimal_blocking_sets_size, 1);
    assert_eq!(r.smallest_blocking_set_size, 0);
}

#[test]
fn post_process_with_grouping() {
    let all_pairs = vec![vec![0, 1], vec![0, 2], vec![1, 2]];
    let s = snapshot(all_pairs.clone(), all_pairs, 1);
    let ids = vec![0, 0, 2];
    let r = post_process(&s, Some(&ids), &vec![], false);
    assert_eq!(r.minimal_quorums, vec![vec![0]]);
    assert_eq!(r.minimal_blocking_sets, vec![vec![0]]);
    assert_eq!(r.smallest_blocking_set_size, 1);
    assert_eq!(r.top_tier, vec![0, 2]);
    assert_eq!(r.top_tier_size, 2);
}

#[test]
fn cache_insert_same_key_twice_keeps_one_entry() {
    let mut cache = ResultCache::new();
    let fbas = standard(THREE_NODES);
    let key = fbas.canonical_key();
    let i = cache.insert(key.clone(), analyse(&fbas));
    let j = cache.insert(key.clone(), analyse(&fbas));
    assert_eq!(i, j);
    assert_eq!(cache.len(), 1);
    assert_eq!(cache.lookup(&key), Some(0));
    assert_eq!(cache.lookup(&vec![1, 2]), None);
    assert_eq!(cache.get(0).minimal_quorums.len(), 3);
}

#[test]
fn analysis_with_cache_misses_then_hits() {
    let mut cache = ResultCache::new();
    let fbas = standard(THREE_NODES);
    assert_eq!(analysis_with_cache(&mut cache, &fbas), (0, false));
    assert_eq!(analysis_with_cache(&mut cache, &fbas), (0, true));
    assert_eq!(cache.len(), 1);
}

#[test]
fn repeated_public_key_is_refused() {
    let json = r#"[
        {"publicKey": "A", "quorumSet": {"threshold": 1, "validators": ["A"]}},
        {"publicKey": "A", "quorumSet": {"threshold": 1, "validators": ["A"]}}
    ]"#;
    assert!(StandardFbas::standardize(&Fbas::from_json_str(json)).is_none());
}

#[test]
fn key_checks() {
    assert!(same_bytes(&vec![1, 2], &vec![1, 2]));
    assert!(!same_bytes(&vec![1, 2], &vec![1]));
    assert!(!same_bytes(&vec![1, 2], &vec![1, 3]));
    assert!(usable_keys(&vec![vec![65], vec![66]]));
    assert!(!usable_keys(&vec![vec![65], vec![65]]));
    assert!(!usable_keys(&vec![vec![65], vec![]]));
    assert!(usable_keys(&vec![]));
}

#[test]
fn three_node_fbas_engine_results() {
    let fbas = standard(THREE_NODES);
    let s = analyse(&fbas);
    let all_pairs = vec![vec![0, 1], vec![0, 2], vec![1, 2]];
    assert_eq!(sorted(&s.minimal_quorums), all_pairs);
    assert_eq!(sorted(&s.minimal_blocking_sets), all_pairs);
    assert!(s.has_quorum_intersection);
}

#[test]
fn three_node_fbas_without_grouping() {
    let mut cache = ResultCache::new();
    let fbas = standard(THREE_NODES);
    let r = analysis(&mut cache, &fbas, None, &vec![]);
    let all_pairs = vec![vec![0, 1], vec![0, 2], vec![1, 2]];
    assert_eq!(sorted(&r.minimal_quorums), all_pairs);
    assert_eq!(sorted(&r.minimal_blocking_sets), all_pairs);
    assert!(r.has_intersection);
    assert_eq!(r.minimal_quorums_size, 3);
    assert_eq!(r.smallest_blocking_set_size, 2);
}

#[test]
fn three_node_fbas_with_inactive_node() {
    let mut cache = ResultCache::new();
    let fbas = standard(THREE_NODES);
    let a = fbas.as_fbas().get_node_id("A").unwrap();
    let r = analysis(&mut cache, &fbas, None, &vec![a]);
    assert_eq!(sorted(&r.minimal_blocking_sets), vec![vec![1], vec![2]]);
}

#[test]
fn three_node_fbas_grouped_by_organization() {
    let mut cache = ResultCache::new();
    let fbas = standard(THREE_NODES);
    // A and B belong to one organization, C to another
    let ids = vec![0, 0, 2];
    let r = analysis(&mut cache, &fbas, Some(&ids), &vec![]);
    assert_eq!(r.minimal_quorums, vec![vec![0]]);
    assert_eq!(r.minimal_quorums_size, 1);
}

#[test]
fn second_analysis_is_served_from_cache() {
    let mut cache = ResultCache::new();
    let fbas = standard(THREE_NODES);
    let first = analysis(&mut cache, &fbas, None, &vec![]);
    let second = analysis(&mut cache, &fbas, None, &vec![]);
    assert!(!first.cache_hit);
    assert!(second.cache_hit);
    assert_eq!(cache.len(), 1);
    assert_eq!(first.minimal_quorums, second.minimal_quorums);
    assert_eq!(first.minimal_blocking_sets, second.minimal_blocking_sets);
    assert_eq!(first.minimal_splitting_sets, second.minimal_splitting_sets);
    assert_eq!(first.top_tier, second.top_tier);
}

#[test]
fn reordered_description_shares_the_cache_entry() {
    let mut cache = ResultCache::new();
    let a = standard(THREE_NODES);
    let b = standard(THREE_NODES_REORDERED);
    assert_eq!(a.canonical_key(), b.canonical_key());
    let first = analysis(&mut cache, &a, None, &vec![]);
    let second = analysis(&mut cache, &b, None, &vec![]);
    assert!(!first.cache_hit);
    assert!(second.cache_hit);
    assert_eq!(cache.len(), 1);
}

#[test]
fn post_process_twice_gives_equal_fields() {
    let fbas = standard(THREE_NODES);
    let s = analyse(&fbas);
    let ids = vec![0, 0, 2];
    let a = post_process(&s, Some(&ids), &vec![1], false);
    let b = post_process(&s, Some(&ids), &vec![1], false);
    assert_eq!(a.minimal_quorums, b.minimal_quorums);
    assert_eq!(a.minimal_blocking_sets, b.minimal_blocking_sets);
    assert_eq!(a.minimal_splitting_sets, b.minimal_splitting_sets);
    assert_eq!(a.top_tier, b.top_tier);
    assert_eq!(a.smallest_blocking_set_size, b.smallest_blocking_set_size);
}
