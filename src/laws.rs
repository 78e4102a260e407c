use vstd::prelude::*;

use crate::graph::{has_edge, is_call_path, is_witness, reaches_unsafe};
use crate::scanset::{compiled, listed, BuildUnit};
use crate::symbols::{base_path, matches_some, observed};

verus! {

/// A node that reaches unsafe code is itself directly unsafe, or it calls, through
/// one of the given edges, another node that reaches unsafe code.
pub proof fn lemma_taint_has_tainted_callee(
    edges: Seq<(usize, usize)>,
    direct: Seq<bool>,
    v: usize,
)
    requires
        reaches_unsafe(edges, direct, v),
    ensures
        (v < direct.len() && direct[v as int]) || exists|j: int|
            0 <= j < edges.len() && (#[trigger] edges[j]).0 == v && reaches_unsafe(
                edges,
                direct,
                edges[j].1,
            ),
{
    let p = choose|p: Seq<usize>| is_witness(edges, direct, v, p);
    if p.len() > 1 {
        let z: int = 0;
        assert(has_edge(edges, p[z], p[z + 1]));
        let j = choose|j: int| 0 <= j < edges.len() && #[trigger] edges[j] == (p[0], p[1]);
        let q = p.drop_first();
        assert forall|i: int| 0 <= i < q.len() - 1 implies #[trigger] has_edge(edges, q[i], q[i + 1]) by {
            assert(has_edge(edges, p[i + 1], p[(i + 1) + 1]));
        }
        assert(is_call_path(edges, q));
        assert(is_witness(edges, direct, edges[j].1, q));
    }
}

/// Without any directly unsafe node, no node reaches unsafe code.
pub proof fn lemma_no_unsafe_no_taint(edges: Seq<(usize, usize)>, direct: Seq<bool>, v: usize)
    requires
        forall|i: int| 0 <= i < direct.len() ==> !#[trigger] direct[i],
    ensures
        !reaches_unsafe(edges, direct, v),
{
    if reaches_unsafe(edges, direct, v) {
        let p = choose|p: Seq<usize>| is_witness(edges, direct, v, p);
        assert(direct[p.last() as int]);
    }
}

/// Which nodes match, and which findings go unobserved, depends only on which
/// findings and which labels there are, not on the order in which they come.
pub proof fn lemma_matching_order_free(
    f1: Seq<Seq<u8>>,
    f2: Seq<Seq<u8>>,
    l1: Seq<Seq<u8>>,
    l2: Seq<Seq<u8>>,
    label: Seq<u8>,
    finding: Seq<u8>,
)
    requires
        forall|f: Seq<u8>| f1.contains(f) <==> f2.contains(f),
        forall|l: Seq<u8>| l1.contains(l) <==> l2.contains(l),
    ensures
        matches_some(f1, label) == matches_some(f2, label),
        observed(l1, finding) == observed(l2, finding),
{
    if matches_some(f1, label) {
        let k = choose|k: int| 0 <= k < f1.len() && base_path(#[trigger] f1[k]) == base_path(label);
        assert(f1.contains(f1[k]));
        let k2 = choose|k2: int| 0 <= k2 < f2.len() && f2[k2] == f1[k];
        assert(base_path(f2[k2]) == base_path(label));
    }
    if matches_some(f2, label) {
        let k = choose|k: int| 0 <= k < f2.len() && base_path(#[trigger] f2[k]) == base_path(label);
        assert(f2.contains(f2[k]));
        let k2 = choose|k2: int| 0 <= k2 < f1.len() && f1[k2] == f2[k];
        assert(base_path(f1[k2]) == base_path(label));
    }
    if observed(l1, finding) {
        let k = choose|k: int| 0 <= k < l1.len() && base_path(#[trigger] l1[k]) == base_path(finding);
        assert(l1.contains(l1[k]));
        let k2 = choose|k2: int| 0 <= k2 < l2.len() && l2[k2] == l1[k];
        assert(base_path(l2[k2]) == base_path(finding));
    }
    if observed(l2, finding) {
        let k = choose|k: int| 0 <= k < l2.len() && base_path(#[trigger] l2[k]) == base_path(finding);
        assert(l2.contains(l2[k]));
        let k2 = choose|k2: int| 0 <= k2 < l1.len() && l1[k2] == l2[k];
        assert(base_path(l1[k2]) == base_path(finding));
    }
}

/// Resolving the scan set twice over the same build units gives the same files:
/// any two lists that hold exactly the compiled files hold the same files.
pub proof fn lemma_scan_set_idempotent(
    units: Seq<BuildUnit>,
    include_tests: bool,
    r1: Seq<Vec<u8>>,
    r2: Seq<Vec<u8>>,
)
    requires
        forall|f: Seq<u8>| #[trigger] compiled(units, include_tests, f) <==> listed(r1, f),
        forall|f: Seq<u8>| #[trigger] compiled(units, include_tests, f) <==> listed(r2, f),
    ensures
        forall|f: Seq<u8>| #[trigger] listed(r1, f) <==> listed(r2, f),
{
    assert forall|f: Seq<u8>| #[trigger] listed(r1, f) <==> listed(r2, f) by {
        assert(compiled(units, include_tests, f) <==> listed(r1, f));
    }
}

} // verus!
