use vstd::prelude::*;

verus! {

/// Position `i` starts a `::<` generic-argument list or a `::{` synthetic segment
/// (a closure or shim) that compilation appended to a function's path
/// (bytes 58, 60 and 123 are `:`, `<` and `{`).
pub open spec fn is_cut(s: Seq<u8>, i: int) -> bool {
    &&& 0 <= i
    &&& i + 2 < s.len()
    &&& s[i] == 58u8
    &&& s[i + 1] == 58u8
    &&& (s[i + 2] == 60u8 || s[i + 2] == 123u8)
}

/// The first cut position at or after `i`, or the length when there is none.
pub open spec fn first_cut_from(s: Seq<u8>, i: nat) -> nat
    decreases s.len() - i,
{
    if i >= s.len() {
        s.len()
    } else if is_cut(s, i as int) {
        i
    } else {
        first_cut_from(s, i + 1)
    }
}

/// The base qualified path of a label: everything before its first cut.
pub open spec fn base_path(s: Seq<u8>) -> Seq<u8> {
    s.subrange(0, first_cut_from(s, 0) as int)
}

/// Some finding has the same base path as the node label.
pub open spec fn matches_some(findings: Seq<Seq<u8>>, label: Seq<u8>) -> bool {
    exists|k: int| 0 <= k < findings.len() && base_path(#[trigger] findings[k]) == base_path(label)
}

/// Some node label has the same base path as the finding.
pub open spec fn observed(labels: Seq<Seq<u8>>, finding: Seq<u8>) -> bool {
    exists|i: int| 0 <= i < labels.len() && base_path(#[trigger] labels[i]) == base_path(finding)
}

/// Strips a trailing generic-argument list or closure segment from a compiled
/// symbol label, leaving the base path that findings are compared by.
pub fn normalize(label: &Vec<u8>) -> (r: Vec<u8>)
    ensures
        r@ == base_path(label@),
{
    let n = label.len();
    let mut i: usize = 0;
    while i < n && !(n > 2 && i < n - 2 && label[i] == 58u8 && label[i + 1] == 58u8 && (label[i + 2] == 60u8
        || label[i + 2] == 123u8))
        invariant
            i <= n,
            n == label@.len(),
            first_cut_from(label@, 0) == first_cut_from(label@, i as nat),
        decreases n - i,
    {
        i = i + 1;
    }
    let mut r: Vec<u8> = Vec::new();
    let mut k: usize = 0;
    while k < i
        invariant
            k <= i <= n,
            n == label@.len(),
            r@ == label@.subrange(0, k as int),
        decreases i - k,
    {
        r.push(label[k]);
        k = k + 1;
    }
    assert(r@ =~= base_path(label@));
    r
}

/// Byte-for-byte equality.
pub fn same_bytes(a: &Vec<u8>, b: &Vec<u8>) -> (r: bool)
    ensures
        r == (a@ == b@),
{
    if a.len() != b.len() {
        return false;
    }
    let mut i: usize = 0;
    while i < a.len()
        invariant
            i <= a@.len(),
            a@.len() == b@.len(),
            forall|k: int| 0 <= k < i ==> a@[k] == b@[k],
        decreases a@.len() - i,
    {
        if a[i] != b[i] {
            return false;
        }
        i = i + 1;
    }
    assert(a@ =~= b@);
    true
}

/// The outcome of matching findings onto call-graph nodes.
pub struct Matches {
    /// For each node, whether some finding matches it.
    pub direct: Vec<bool>,
    /// For each finding, whether no node matches it.
    pub unobserved: Vec<bool>,
}

/// Matches each finding (a qualified function path) onto every node label with
/// the same base path. A finding may match many nodes, one per instantiation or
/// closure, or none: it is then reported as unobserved.
pub fn match_findings(findings: &Vec<Vec<u8>>, labels: &Vec<Vec<u8>>) -> (r: Matches)
    ensures
        r.direct@.len() == labels@.len(),
        r.unobserved@.len() == findings@.len(),
        forall|i: int|
            0 <= i < labels@.len() ==> (#[trigger] r.direct@[i] <==> matches_some(
                findings@.map_values(|f: Vec<u8>| f@),
                labels@[i]@,
            )),
        forall|k: int|
            0 <= k < findings@.len() ==> (#[trigger] r.unobserved@[k] <==> !observed(
                labels@.map_values(|l: Vec<u8>| l@),
                findings@[k]@,
            )),
{
    let ghost fs = findings@.map_values(|f: Vec<u8>| f@);
    let ghost ls = labels@.map_values(|l: Vec<u8>| l@);
    let mut fbase: Vec<Vec<u8>> = Vec::new();
    let mut k: usize = 0;
    while k < findings.len()
        invariant
            k <= findings@.len(),
            fbase@.len() == k,
            forall|t: int| 0 <= t < k ==> (#[trigger] fbase@[t])@ == base_path(findings@[t]@),
        decreases findings@.len() - k,
    {
        fbase.push(normalize(&findings[k]));
        k = k + 1;
    }
    let mut direct: Vec<bool> = Vec::new();
    let mut seen: Vec<bool> = Vec::new();
    k = 0;
    while k < findings.len()
        invariant
            k <= findings@.len(),
            seen@ == Seq::new(k as nat, |t: int| false),
        decreases findings@.len() - k,
    {
        seen.push(false);
        k = k + 1;
    }
    let mut i: usize = 0;
    while i < labels.len()
        invariant
            i <= labels@.len(),
            fs == findings@.map_values(|f: Vec<u8>| f@),
            ls == labels@.map_values(|l: Vec<u8>| l@),
            fbase@.len() == findings@.len(),
            forall|t: int| 0 <= t < findings@.len() ==> (#[trigger] fbase@[t])@ == base_path(findings@[t]@),
            direct@.len() == i,
            seen@.len() == findings@.len(),
            forall|q: int| 0 <= q < i ==> (#[trigger] direct@[q] <==> matches_some(fs, labels@[q]@)),
            forall|t: int|
                0 <= t < findings@.len() ==> (#[trigger] seen@[t] <==> exists|q: int|
                    0 <= q < i && base_path(#[trigger] labels@[q]@) == base_path(findings@[t]@)),
        decreases labels@.len() - i,
    {
        let b = normalize(&labels[i]);
        let mut hit = false;
        let mut t: usize = 0;
        while t < findings.len()
            invariant
                t <= findings@.len(),
                i < labels@.len(),
                b@ == base_path(labels@[i as int]@),
                fbase@.len() == findings@.len(),
                forall|u: int| 0 <= u < findings@.len() ==> (#[trigger] fbase@[u])@ == base_path(findings@[u]@),
                seen@.len() == findings@.len(),
                hit <==> exists|u: int| 0 <= u < t && base_path(#[trigger] findings@[u]@) == b@,
                forall|u: int|
                    0 <= u < findings@.len() ==> (#[trigger] seen@[u] <==> (exists|q: int|
                        0 <= q < i && base_path(#[trigger] labels@[q]@) == base_path(findings@[u]@))
                        || (u < t && base_path(findings@[u]@) == b@)),
            decreases findings@.len() - t,
        {
            if same_bytes(&fbase[t], &b) {
                hit = true;
                seen.set(t, true);
            }
            t = t + 1;
        }
        proof {
            assert(hit <==> matches_some(fs, labels@[i as int]@)) by {
                if hit {
                    let u = choose|u: int| 0 <= u < findings@.len() && base_path(#[trigger] findings@[u]@) == b@;
                    assert(fs[u] == findings@[u]@);
                }
                if matches_some(fs, labels@[i as int]@) {
                    let u = choose|u: int| 0 <= u < fs.len() && base_path(#[trigger] fs[u]) == base_path(labels@[i as int]@);
                    assert(fs[u] == findings@[u]@);
                }
            }
            assert forall|u: int| 0 <= u < findings@.len() implies (#[trigger] seen@[u] <==> exists|q: int|
                0 <= q < i + 1 && base_path(#[trigger] labels@[q]@) == base_path(findings@[u]@)) by {
                if base_path(findings@[u]@) == b@ {
                    assert(base_path(labels@[i as int]@) == base_path(findings@[u]@));
                }
            }
        }
        direct.push(hit);
        i = i + 1;
    }
    let mut unobserved: Vec<bool> = Vec::new();
    k = 0;
    while k < findings.len()
        invariant
            k <= findings@.len(),
            seen@.len() == findings@.len(),
            i == labels@.len(),
            ls == labels@.map_values(|l: Vec<u8>| l@),
            forall|t: int|
                0 <= t < findings@.len() ==> (#[trigger] seen@[t] <==> exists|q: int|
                    0 <= q < i && base_path(#[trigger] labels@[q]@) == base_path(findings@[t]@)),
            unobserved@.len() == k,
            forall|t: int| 0 <= t < k ==> (#[trigger] unobserved@[t] <==> !observed(ls, findings@[t]@)),
        decreases findings@.len() - k,
    {
        proof {
            if seen@[k as int] {
                let q = choose|q: int| 0 <= q < i && base_path(#[trigger] labels@[q]@) == base_path(findings@[k as int]@);
                assert(ls[q] == labels@[q]@);
            }
            if observed(ls, findings@[k as int]@) {
                let q = choose|q: int| 0 <= q < ls.len() && base_path(#[trigger] ls[q]) == base_path(findings@[k as int]@);
                assert(ls[q] == labels@[q]@);
            }
        }
        unobserved.push(!seen[k]);
        k = k + 1;
    }
    Matches { direct, unobserved }
}

} // verus!
