use vstd::prelude::*;

verus! {

/// Every edge `(caller, callee)` names two of the `n` nodes.
pub open spec fn edges_in_bounds(n: nat, edges: Seq<(usize, usize)>) -> bool {
    forall|j: int| 0 <= j < edges.len() ==> (#[trigger] edges[j]).0 < n && edges[j].1 < n
}

/// Some edge leads from `a` to `b`.
pub open spec fn has_edge(edges: Seq<(usize, usize)>, a: usize, b: usize) -> bool {
    exists|j: int| 0 <= j < edges.len() && #[trigger] edges[j] == (a, b)
}

/// Each entry of `p` calls the next one.
pub open spec fn is_call_path(edges: Seq<(usize, usize)>, p: Seq<usize>) -> bool {
    forall|i: int| 0 <= i < p.len() - 1 ==> #[trigger] has_edge(edges, p[i], p[i + 1])
}

/// `p` is a call path that starts at `v` and ends at a directly unsafe node.
pub open spec fn is_witness(
    edges: Seq<(usize, usize)>,
    direct: Seq<bool>,
    v: usize,
    p: Seq<usize>,
) -> bool {
    &&& p.len() > 0
    &&& p[0] == v
    &&& p.last() < direct.len()
    &&& direct[p.last() as int]
    &&& is_call_path(edges, p)
}

/// Node `v` can reach a directly unsafe node through the call graph (in zero or more calls).
pub open spec fn reaches_unsafe(edges: Seq<(usize, usize)>, direct: Seq<bool>, v: usize) -> bool {
    exists|p: Seq<usize>| #[trigger] is_witness(edges, direct, v, p)
}

/// Number of `false` entries.
pub open spec fn unmarked_count(s: Seq<bool>) -> nat
    decreases s.len(),
{
    if s.len() == 0 {
        0
    } else {
        unmarked_count(s.drop_last()) + if s.last() {
            0nat
        } else {
            1nat
        }
    }
}

proof fn lemma_mark(s: Seq<bool>, i: int)
    requires
        0 <= i < s.len(),
        !s[i],
    ensures
        unmarked_count(s.update(i, true)) + 1 == unmarked_count(s),
    decreases s.len(),
{
    if i == s.len() - 1 {
        assert(s.update(i, true).drop_last() =~= s.drop_last());
    } else {
        assert(s.update(i, true).drop_last() =~= s.drop_last().update(i, true));
        lemma_mark(s.drop_last(), i);
    }
}

proof fn lemma_extend_witness(
    edges: Seq<(usize, usize)>,
    direct: Seq<bool>,
    w: usize,
    u: usize,
    j: int,
    p: Seq<usize>,
)
    requires
        0 <= j < edges.len(),
        edges[j] == (w, u),
        is_witness(edges, direct, u, p),
    ensures
        is_witness(edges, direct, w, seq![w] + p),
{
    let q = seq![w] + p;
    assert forall|i: int| 0 <= i < q.len() - 1 implies #[trigger] has_edge(edges, q[i], q[i + 1]) by {
        if i == 0 {
            assert(edges[j] == (q[0], q[1]));
        } else {
            assert(q[i] == p[i - 1] && q[i + 1] == p[i]);
            assert(has_edge(edges, p[i - 1], p[(i - 1) + 1]));
        }
    }
}

proof fn lemma_closed_covers_path(
    edges: Seq<(usize, usize)>,
    direct: Seq<bool>,
    marked: Seq<bool>,
    p: Seq<usize>,
    i: int,
)
    requires
        marked.len() == direct.len(),
        edges_in_bounds(direct.len(), edges),
        forall|v: int| 0 <= v < direct.len() && #[trigger] direct[v] ==> marked[v],
        forall|j: int|
            0 <= j < edges.len() && #[trigger] marked[edges[j].1 as int] ==> marked[edges[j].0 as int],
        p.len() > 0,
        p.last() < direct.len(),
        direct[p.last() as int],
        is_call_path(edges, p),
        0 <= i < p.len(),
    ensures
        p[i] < direct.len(),
        marked[p[i] as int],
    decreases p.len() - i,
{
    if i < p.len() - 1 {
        lemma_closed_covers_path(edges, direct, marked, p, i + 1);
        assert(has_edge(edges, p[i], p[i + 1]));
        let j = choose|j: int| 0 <= j < edges.len() && #[trigger] edges[j] == (p[i], p[i + 1]);
        assert(marked[edges[j].1 as int]);
    }
}

/// The nodes that can reach unsafe code, with an explanation for each.
///
/// For a tainted node that is not itself directly unsafe, `step` holds the index
/// of a call edge from it to another tainted node.
pub struct TaintSet {
    pub tainted: Vec<bool>,
    pub step: Vec<usize>,
}

/// What holds of the marks at every point of the propagation.
pub open spec fn marks_sound(
    edges: Seq<(usize, usize)>,
    direct: Seq<bool>,
    tainted: Seq<bool>,
    step: Seq<usize>,
    paths: Seq<Seq<usize>>,
) -> bool {
    let n = direct.len();
    &&& tainted.len() == n
    &&& step.len() == n
    &&& paths.len() == n
    &&& edges_in_bounds(n, edges)
    &&& forall|v: int| 0 <= v < n && #[trigger] direct[v] ==> tainted[v]
    &&& forall|v: int| 0 <= v < n && #[trigger] tainted[v] ==> is_witness(edges, direct, v as usize, paths[v])
    &&& forall|v: int|
        0 <= v < n && tainted[v] && !direct[v] ==> {
            let j = #[trigger] step[v] as int;
            &&& 0 <= j < edges.len()
            &&& edges[j].0 == v
            &&& tainted[edges[j].1 as int]
        }
}

proof fn lemma_mark_sound(
    edges: Seq<(usize, usize)>,
    direct: Seq<bool>,
    tainted: Seq<bool>,
    step: Seq<usize>,
    paths: Seq<Seq<usize>>,
    j: usize,
)
    requires
        marks_sound(edges, direct, tainted, step, paths),
        j < edges.len(),
        tainted[edges[j as int].1 as int],
        !tainted[edges[j as int].0 as int],
    ensures
        marks_sound(
            edges,
            direct,
            tainted.update(edges[j as int].0 as int, true),
            step.update(edges[j as int].0 as int, j),
            paths.update(edges[j as int].0 as int, seq![edges[j as int].0] + paths[edges[j as int].1 as int]),
        ),
{
    let w = edges[j as int].0;
    let u = edges[j as int].1;
    lemma_extend_witness(edges, direct, w, u, j as int, paths[u as int]);
    let t2 = tainted.update(w as int, true);
    let s2 = step.update(w as int, j);
    let p2 = paths.update(w as int, seq![w] + paths[u as int]);
    let n = direct.len();
    assert forall|v: int| 0 <= v < n && #[trigger] t2[v] implies is_witness(edges, direct, v as usize, p2[v]) by {
        if v != w {
            assert(tainted[v]);
        }
    }
    assert forall|v: int| 0 <= v < n && t2[v] && !direct[v] implies {
        let jj = #[trigger] s2[v] as int;
        &&& 0 <= jj < edges.len()
        &&& edges[jj].0 == v
        &&& t2[edges[jj].1 as int]
    } by {
        if v != w {
            assert(tainted[v]);
            let jj = step[v] as int;
            assert(s2[v] == step[v]);
            assert(0 <= jj < edges.len() && edges[jj].0 == v);
            assert(tainted[edges[jj].1 as int]);
            assert(edges[jj].1 < n);
            assert(t2[edges[jj].1 as int]);
        } else {
            assert(u != w);
            assert(u < n);
            assert(s2[v] == j);
            assert(t2[u as int]);
        }
    }
}

/// Marks every node that can reach a directly unsafe node: the directly unsafe
/// nodes first, then, pass after pass over the edges, each caller of a marked
/// node, until a pass marks nothing. Cycles are harmless: a node is marked once.
#[verifier::rlimit(40)]
pub fn propagate(edges: &Vec<(usize, usize)>, direct: &Vec<bool>) -> (r: TaintSet)
    requires
        edges_in_bounds(direct@.len(), edges@),
    ensures
        r.tainted@.len() == direct@.len(),
        r.step@.len() == direct@.len(),
        forall|v: usize|
            v < direct@.len() ==> (r.tainted@[v as int] <==> #[trigger] reaches_unsafe(
                edges@,
                direct@,
                v,
            )),
        forall|v: int|
            0 <= v < direct@.len() && r.tainted@[v] && !direct@[v] ==> {
                let j = #[trigger] r.step@[v] as int;
                &&& 0 <= j < edges@.len()
                &&& edges@[j].0 == v
                &&& r.tainted@[edges@[j].1 as int]
            },
{
    let n = direct.len();
    let mut tainted: Vec<bool> = Vec::new();
    let mut step: Vec<usize> = Vec::new();
    let ghost mut paths: Seq<Seq<usize>> = Seq::empty();
    let mut k: usize = 0;
    while k < n
        invariant
            k <= n,
            n == direct@.len(),
            tainted@ == direct@.subrange(0, k as int),
            step@.len() == k,
            paths.len() == k,
            forall|v: int| 0 <= v < k && #[trigger] direct@[v] ==> paths[v] == seq![v as usize],
        decreases n - k,
    {
        tainted.push(direct[k]);
        step.push(0);
        proof {
            paths = paths.push(seq![k]);
        }
        k = k + 1;
    }
    assert(tainted@ =~= direct@);
    proof {
        assert forall|v: int| 0 <= v < n && #[trigger] tainted@[v] implies is_witness(
            edges@,
            direct@,
            v as usize,
            paths[v],
        ) by {
            assert(paths[v] == seq![v as usize]);
        }
    }
    let mut done = false;
    while !done
        invariant
            n == direct@.len(),
            marks_sound(edges@, direct@, tainted@, step@, paths),
            done ==> forall|j: int|
                0 <= j < edges@.len() && #[trigger] tainted@[edges@[j].1 as int]
                    ==> tainted@[edges@[j].0 as int],
        decreases unmarked_count(tainted@) + if done {
            0nat
        } else {
            1nat
        },
    {
        let ghost start = tainted@;
        let mut changed = false;
        let mut j: usize = 0;
        while j < edges.len()
            invariant
                j <= edges@.len(),
                n == direct@.len(),
                marks_sound(edges@, direct@, tainted@, step@, paths),
                changed ==> unmarked_count(tainted@) < unmarked_count(start),
                !changed ==> tainted@ == start,
                !changed ==> forall|jj: int|
                    0 <= jj < j && #[trigger] tainted@[edges@[jj].1 as int]
                        ==> tainted@[edges@[jj].0 as int],
            decreases edges@.len() - j,
        {
            let a = edges[j].0;
            let b = edges[j].1;
            if tainted[b] && !tainted[a] {
                proof {
                    lemma_mark(tainted@, a as int);
                    lemma_mark_sound(edges@, direct@, tainted@, step@, paths, j);
                    paths = paths.update(a as int, seq![a] + paths[b as int]);
                }
                tainted.set(a, true);
                step.set(a, j);
                changed = true;
            }
            j = j + 1;
        }
        if !changed {
            done = true;
        }
    }
    proof {
        assert forall|v: usize| v < n implies (tainted@[v as int] <==> #[trigger] reaches_unsafe(
            edges@,
            direct@,
            v,
        )) by {
            if tainted@[v as int] {
                assert(is_witness(edges@, direct@, v, paths[v as int]));
            }
            if reaches_unsafe(edges@, direct@, v) {
                let p = choose|p: Seq<usize>| is_witness(edges@, direct@, v, p);
                lemma_closed_covers_path(edges@, direct@, tainted@, p, 0);
            }
        }
    }
    TaintSet { tainted, step }
}

} // verus!
