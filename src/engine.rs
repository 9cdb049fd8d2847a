//! The analysis engine of fbas_analyzer, which enumerates minimal quorums,
//! blocking sets and splitting sets of an FBAS in standard form. Its results are
//! handed to the rest of the library as plain node-id vectors.

use vstd::prelude::*;
use crate::sets::{is_antichain, sets_wf};

verus! {

#[verifier::external_type_specification]
#[verifier::external_body]
pub struct ExFbas(fbas_analyzer::Fbas);

#[verifier::external_type_specification]
#[verifier::external_body]
pub struct ExAnalysis(fbas_analyzer::Analysis);

#[verifier::external_type_specification]
#[verifier::external_body]
pub struct ExQuorumSet(fbas_analyzer::QuorumSet);

/// The serialized form of an FBAS.
pub uninterp spec fn fbas_key(fbas: fbas_analyzer::Fbas) -> Seq<u8>;

/// The public keys of the nodes of an FBAS, by node id.
pub uninterp spec fn public_keys_of(fbas: fbas_analyzer::Fbas) -> Seq<Seq<u8>>;

/// The standard form of an FBAS (Fbas::to_standard_form): its satisfiable nodes,
/// sorted by public key, rebuilt so that every validator names a node.
pub uninterp spec fn standard_of(fbas: fbas_analyzer::Fbas) -> fbas_analyzer::Fbas;

/// `fbas` is the standard form of some FBAS; its serialized form then determines it.
pub open spec fn is_standard(fbas: fbas_analyzer::Fbas) -> bool {
    exists|f: fbas_analyzer::Fbas| standard_of(f) == fbas
}

/// The serialized form of the FBAS that an analysis was made for.
pub uninterp spec fn analysed_key(a: fbas_analyzer::Analysis) -> Seq<u8>;

/// The engine's minimal quorums of the FBAS serialized as `key`.
pub uninterp spec fn quorums_of(key: Seq<u8>) -> Seq<Seq<usize>>;

/// The engine's minimal blocking sets of the FBAS serialized as `key`.
pub uninterp spec fn blocking_sets_of(key: Seq<u8>) -> Seq<Seq<usize>>;

/// The engine's minimal splitting sets of the FBAS serialized as `key`.
pub uninterp spec fn splitting_sets_of(key: Seq<u8>) -> Seq<Seq<usize>>;

/// The engine's top tier of the FBAS serialized as `key`.
pub uninterp spec fn top_tier_of(key: Seq<u8>) -> Seq<usize>;

/// Whether the engine finds quorum intersection in the FBAS serialized as `key`.
pub uninterp spec fn intersection_of(key: Seq<u8>) -> bool;

/// The engine's symmetric clusters of the FBAS serialized as `key`.
pub uninterp spec fn clusters_of(key: Seq<u8>) -> Seq<fbas_analyzer::QuorumSet>;

/// The node-id lists of a collection.
pub open spec fn lists(c: Seq<Vec<usize>>) -> Seq<Seq<usize>> {
    c.map_values(|v: Vec<usize>| v@)
}

/// Public keys under which fbas_analyzer can rebuild an FBAS: no key repeats and
/// none is empty (`Fbas::add_node` panics on a repeated key, and `Fbas::shrunken`
/// on a node that equals an unconfigured node with the empty key).
pub open spec fn keys_usable(keys: Seq<Seq<u8>>) -> bool {
    &&& forall|i: int, j: int|
        #![trigger keys[i], keys[j]]
        0 <= i < keys.len() && 0 <= j < keys.len() && i != j ==> keys[i] != keys[j]
    &&& forall|i: int| 0 <= i < keys.len() ==> (#[trigger] keys[i]).len() > 0
}

/// Relies on fbas_analyzer::to_public_keys over all node ids (Fbas::number_of_nodes):
/// the public key of each node, by id.
#[verifier::external_body]
pub(crate) fn public_keys(fbas: &fbas_analyzer::Fbas) -> (r: Vec<Vec<u8>>)
    ensures
        r@.map_values(|k: Vec<u8>| k@) == public_keys_of(*fbas),
{
    fbas_analyzer::to_public_keys(0..fbas.number_of_nodes(), fbas)
        .into_iter()
        .map(|k| k.into_bytes())
        .collect()
}

/// Relies on Fbas::to_standard_form, which keeps the satisfiable nodes, each with
/// its public key, sorted by key; it rebuilds the FBAS through Fbas::shrunken and
/// Fbas::from_raw (which drops validators that name no node).
#[verifier::external_body]
pub(crate) fn standard_form(fbas: &fbas_analyzer::Fbas) -> (r: fbas_analyzer::Fbas)
    requires
        keys_usable(public_keys_of(*fbas)),
    ensures
        r == standard_of(*fbas),
        keys_usable(public_keys_of(r)),
{
    fbas.to_standard_form()
}

/// Relies on Fbas::to_json_string: the serialized form of `fbas`.
#[verifier::external_body]
pub(crate) fn json_bytes(fbas: &fbas_analyzer::Fbas) -> (r: Vec<u8>)
    ensures
        r@ == fbas_key(*fbas),
{
    fbas.to_json_string().into_bytes()
}

/// Relies on Analysis::new: prepares the analysis of `fbas` (it rebuilds `fbas`
/// through Fbas::shrunken). On a standard form, whose validators all name nodes,
/// the serialized form determines the FBAS and so the analysis.
#[verifier::external_body]
pub(crate) fn new_analysis(fbas: &fbas_analyzer::Fbas) -> (r: fbas_analyzer::Analysis)
    requires
        keys_usable(public_keys_of(*fbas)),
        is_standard(*fbas),
    ensures
        analysed_key(r) == fbas_key(*fbas),
{
    fbas_analyzer::Analysis::new(fbas)
}

/// Relies on Analysis::minimal_quorums, whose sets no other contains
/// (find_minimal_sets asserts is_set_of_minimal_node_sets; unshrinking renames
/// ids one to one), read out through NodeIdSetVecResult::into_vec_vec (each bit
/// set's members once).
#[verifier::external_body]
pub(crate) fn minimal_quorums(a: &fbas_analyzer::Analysis) -> (r: Vec<Vec<usize>>)
    ensures
        lists(r@) == quorums_of(analysed_key(*a)),
        sets_wf(r@),
        is_antichain(r@),
{
    a.minimal_quorums().into_vec_vec()
}

/// Relies on Analysis::minimal_blocking_sets, whose sets no other contains
/// (find_minimal_sets asserts is_set_of_minimal_node_sets), read out through
/// NodeIdSetVecResult::into_vec_vec.
#[verifier::external_body]
pub(crate) fn minimal_blocking_sets(a: &fbas_analyzer::Analysis) -> (r: Vec<Vec<usize>>)
    ensures
        lists(r@) == blocking_sets_of(analysed_key(*a)),
        sets_wf(r@),
        is_antichain(r@),
{
    a.minimal_blocking_sets().into_vec_vec()
}

/// Relies on Analysis::minimal_splitting_sets, whose sets no other contains
/// (find_minimal_sets asserts is_set_of_minimal_node_sets), read out through
/// NodeIdSetVecResult::into_vec_vec (each bit set's members once).
#[verifier::external_body]
pub(crate) fn minimal_splitting_sets(a: &fbas_analyzer::Analysis) -> (r: Vec<Vec<usize>>)
    ensures
        lists(r@) == splitting_sets_of(analysed_key(*a)),
        sets_wf(r@),
        is_antichain(r@),
{
    a.minimal_splitting_sets().into_vec_vec()
}

/// Relies on Analysis::top_tier, read out through NodeIdSetResult::into_vec
/// (the bit set's members once).
#[verifier::external_body]
pub(crate) fn top_tier(a: &fbas_analyzer::Analysis) -> (r: Vec<usize>)
    ensures
        r@ == top_tier_of(analysed_key(*a)),
        r@.no_duplicates(),
{
    a.top_tier().into_vec()
}

/// Relies on Analysis::has_quorum_intersection.
#[verifier::external_body]
pub(crate) fn has_quorum_intersection(a: &fbas_analyzer::Analysis) -> (r: bool)
    ensures
        r == intersection_of(analysed_key(*a)),
{
    a.has_quorum_intersection()
}

/// Relies on Analysis::symmetric_clusters.
#[verifier::external_body]
pub(crate) fn symmetric_clusters(a: &fbas_analyzer::Analysis) -> (r: Vec<fbas_analyzer::QuorumSet>)
    ensures
        r@ == clusters_of(analysed_key(*a)),
{
    a.symmetric_clusters()
}

/// Whether two byte strings are equal.
pub fn same_bytes(a: &Vec<u8>, b: &Vec<u8>) -> (r: bool)
    ensures
        r == (a@ == b@),
{
    if a.len() != b.len() {
        return false;
    }
    let mut i: usize = 0;
    while i < a.len()
        invariant
            0 <= i <= a.len(),
            a.len() == b.len(),
            forall|k: int| 0 <= k < i ==> a@[k] == b@[k],
        decreases a.len() - i,
    {
        if a[i] != b[i] {
            return false;
        }
        i = i + 1;
    }
    assert(a@ =~= b@);
    true
}

/// Whether no key repeats and none is empty.
pub fn usable_keys(keys: &Vec<Vec<u8>>) -> (r: bool)
    ensures
        r == keys_usable(keys@.map_values(|k: Vec<u8>| k@)),
{
    let ghost m = keys@.map_values(|k: Vec<u8>| k@);
    let mut i: usize = 0;
    while i < keys.len()
        invariant
            0 <= i <= keys.len(),
            m == keys@.map_values(|k: Vec<u8>| k@),
            forall|a: int, b: int|
                #![trigger m[a], m[b]]
                0 <= a < i && 0 <= b < keys.len() && a != b ==> m[a] != m[b],
            forall|a: int| 0 <= a < i ==> (#[trigger] m[a]).len() > 0,
        decreases keys.len() - i,
    {
        if keys[i].len() == 0 {
            assert(m[i as int].len() == 0);
            return false;
        }
        let mut j: usize = 0;
        while j < keys.len()
            invariant
                0 <= j <= keys.len(),
                0 <= i < keys.len(),
                m == keys@.map_values(|k: Vec<u8>| k@),
                forall|b: int| #![trigger m[b]] 0 <= b < j && b != i ==> m[i as int] != m[b],
            decreases keys.len() - j,
        {
            if j != i && same_bytes(&keys[i], &keys[j]) {
                assert(m[i as int] == m[j as int]);
                return false;
            }
            j = j + 1;
        }
        assert forall|a: int, b: int|
            #![trigger m[a], m[b]]
            0 <= a < i + 1 && 0 <= b < keys.len() && a != b implies m[a] != m[b] by {
            if a == i {
                assert(m[i as int] != m[b]);
            }
        }
        i = i + 1;
    }
    assert forall|a: int, b: int|
        #![trigger m[a], m[b]]
        0 <= a < m.len() && 0 <= b < m.len() && a != b implies m[a] != m[b] by {
        if a >= b {
            assert(m[b] != m[a]);
        }
    }
    true
}

/// Canonical-key equivalence: FBAS descriptions that standardize alike (as two
/// orderings of the same nodes do, the standard form being sorted by public key)
/// are held under one cache key.
pub proof fn lemma_same_standard_form_same_key(
    a: StandardFbas,
    b: StandardFbas,
    fa: fbas_analyzer::Fbas,
    fb: fbas_analyzer::Fbas,
)
    requires
        a.fbas() == standard_of(fa),
        b.fbas() == standard_of(fb),
        standard_of(fa) == standard_of(fb),
    ensures
        a.key() == b.key(),
{
}

/// An FBAS in standard form whose public keys are distinct and non-empty, the
/// only shape the engine is run on.
pub struct StandardFbas {
    fbas: fbas_analyzer::Fbas,
}

impl StandardFbas {
    #[verifier::type_invariant]
    spec fn inv(&self) -> bool {
        keys_usable(public_keys_of(self.fbas)) && is_standard(self.fbas)
    }

    /// The FBAS held.
    pub closed spec fn fbas(&self) -> fbas_analyzer::Fbas {
        self.fbas
    }

    /// The serialized form of the FBAS held: its cache key.
    pub open spec fn key(&self) -> Seq<u8> {
        fbas_key(self.fbas())
    }

    /// The standard form of `fbas`, or `None` where a public key repeats or is empty.
    pub fn standardize(fbas: &fbas_analyzer::Fbas) -> (r: Option<StandardFbas>)
        ensures
            r is Some <==> keys_usable(public_keys_of(*fbas)),
            r matches Some(s) ==> s.fbas() == standard_of(*fbas),
    {
        let keys = public_keys(fbas);
        if usable_keys(&keys) {
            let s = standard_form(fbas);
            assert(is_standard(s));
            Some(StandardFbas { fbas: s })
        } else {
            None
        }
    }

    /// The FBAS held, for resolving groupings and names.
    pub fn as_fbas(&self) -> (r: &fbas_analyzer::Fbas)
        ensures
            *r == self.fbas(),
    {
        &self.fbas
    }

    /// The serialized form of the FBAS held.
    pub fn canonical_key(&self) -> (r: Vec<u8>)
        ensures
            r@ == self.key(),
    {
        json_bytes(&self.fbas)
    }

    /// Prepares the analysis of the FBAS held.
    pub(crate) fn analysis(&self) -> (r: fbas_analyzer::Analysis)
        ensures
            analysed_key(r) == self.key(),
    {
        proof {
            use_type_invariant(self);
        }
        new_analysis(&self.fbas)
    }
}

} // verus!
