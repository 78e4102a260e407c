use vstd::prelude::*;

use crate::symbols::same_bytes;

verus! {

/// One compiled piece of a package, as the build resolved it.
pub struct BuildUnit {
    /// Whether the unit is built only for testing.
    pub is_test: bool,
    /// The files the compiler read for this unit, if its dependency record exists.
    pub dep_record: Option<Vec<Vec<u8>>>,
}

/// The unit counts under the active configuration.
pub open spec fn selected(u: BuildUnit, include_tests: bool) -> bool {
    include_tests || !u.is_test
}

/// File `f` is listed in the unit's dependency record.
pub open spec fn in_record(u: BuildUnit, f: Seq<u8>) -> bool {
    match u.dep_record {
        Some(r) => exists|t: int| 0 <= t < r@.len() && (#[trigger] r@[t])@ == f,
        None => false,
    }
}

/// File `f` was read to compile some unit that counts.
pub open spec fn compiled(units: Seq<BuildUnit>, include_tests: bool, f: Seq<u8>) -> bool {
    exists|k: int|
        0 <= k < units.len() && selected(units[k], include_tests) && in_record(#[trigger] units[k], f)
}

/// Whether some entry of `list` has the same bytes as `x`.
pub fn contains_bytes(list: &Vec<Vec<u8>>, x: &Vec<u8>) -> (r: bool)
    ensures
        r == exists|t: int| 0 <= t < list@.len() && (#[trigger] list@[t])@ == x@,
{
    let mut t: usize = 0;
    while t < list.len()
        invariant
            t <= list@.len(),
            forall|u: int| 0 <= u < t ==> (#[trigger] list@[u])@ != x@,
        decreases list@.len() - t,
    {
        if same_bytes(&list[t], x) {
            return true;
        }
        t = t + 1;
    }
    false
}

/// Some entry of `list` holds the bytes `f`.
pub open spec fn listed(list: Seq<Vec<u8>>, f: Seq<u8>) -> bool {
    exists|t: int| 0 <= t < list.len() && (#[trigger] list[t])@ == f
}

/// One of the first `n` entries of `list` holds the bytes `f`.
pub open spec fn listed_before(list: Seq<Vec<u8>>, n: int, f: Seq<u8>) -> bool {
    exists|t: int| 0 <= t < n && (#[trigger] list[t])@ == f
}

/// The files used in compilation: the union of the dependency records of every
/// unit that counts (test units only when `include_tests`), each file once.
/// A unit without a record contributes nothing.
pub fn resolve_scan_set(units: &Vec<BuildUnit>, include_tests: bool) -> (r: Vec<Vec<u8>>)
    ensures
        forall|f: Seq<u8>| #[trigger] compiled(units@, include_tests, f) <==> listed(r@, f),
        forall|a: int, b: int| 0 <= a < b < r@.len() ==> (#[trigger] r@[a])@ != (#[trigger] r@[b])@,
{
    let mut r: Vec<Vec<u8>> = Vec::new();
    let mut k: usize = 0;
    while k < units.len()
        invariant
            k <= units@.len(),
            forall|f: Seq<u8>|
                #[trigger] listed(r@, f) <==> compiled(units@.subrange(0, k as int), include_tests, f),
            forall|a: int, b: int| 0 <= a < b < r@.len() ==> (#[trigger] r@[a])@ != (#[trigger] r@[b])@,
        decreases units@.len() - k,
    {
        let ghost pre = units@.subrange(0, k as int);
        let ghost post = units@.subrange(0, k + 1);
        let u = &units[k];
        if include_tests || !u.is_test {
            match &u.dep_record {
                Some(rec) => {
                    let mut t: usize = 0;
                    while t < rec.len()
                        invariant
                            t <= rec@.len(),
                            forall|f: Seq<u8>|
                                #[trigger] listed(r@, f) <==> (compiled(pre, include_tests, f)
                                    || listed_before(rec@, t as int, f)),
                            forall|a: int, b: int|
                                0 <= a < b < r@.len() ==> (#[trigger] r@[a])@ != (#[trigger] r@[b])@,
                        decreases rec@.len() - t,
                    {
                        let ghost before = r@;
                        if !contains_bytes(&r, &rec[t]) {
                            let c = rec[t].clone();
                            assert(c@ =~= rec@[t as int]@);
                            r.push(c);
                            assert(r@ == before.push(c));
                        }
                        proof {
                            assert forall|f: Seq<u8>|
                                #[trigger] listed(r@, f) <==> (compiled(pre, include_tests, f)
                                    || listed_before(rec@, t + 1, f)) by {
                                assert(listed(before, f) <==> (compiled(pre, include_tests, f)
                                    || listed_before(rec@, t as int, f)));
                                if listed_before(rec@, t + 1, f) && !listed_before(rec@, t as int, f) {
                                    assert(rec@[t as int]@ == f);
                                }
                                if listed_before(rec@, t as int, f) {
                                    let s = choose|s: int| 0 <= s < t && (#[trigger] rec@[s])@ == f;
                                    assert(listed_before(rec@, t + 1, f));
                                }
                                if listed(before, f) {
                                    let i = choose|i: int| 0 <= i < before.len() && (#[trigger] before[i])@ == f;
                                    assert(r@[i] == before[i]);
                                }
                                if listed(r@, f) {
                                    let i = choose|i: int| 0 <= i < r@.len() && (#[trigger] r@[i])@ == f;
                                    if i < before.len() {
                                        assert(before[i]@ == f);
                                    } else {
                                        assert(rec@[t as int]@ == f);
                                    }
                                }
                                if f == rec@[t as int]@ {
                                    assert(listed_before(rec@, t + 1, f));
                                    if r@.len() == before.len() {
                                        assert(listed(before, f));
                                    } else {
                                        assert(r@[before.len() as int]@ == f);
                                    }
                                }
                            }
                        }
                        t = t + 1;
                    }
                    proof {
                        assert forall|f: Seq<u8>|
                            #[trigger] in_record(units@[k as int], f) == listed_before(rec@, rec@.len() as int, f) by {
                            if in_record(units@[k as int], f) {
                                let s = choose|s: int| 0 <= s < rec@.len() && (#[trigger] rec@[s])@ == f;
                                assert(listed_before(rec@, rec@.len() as int, f));
                            }
                        }
                    }
                },
                None => {},
            }
        }
        proof {
            assert forall|f: Seq<u8>| #[trigger] listed(r@, f) <==> compiled(post, include_tests, f) by {
                if compiled(post, include_tests, f) {
                    let j = choose|j: int|
                        0 <= j < post.len() && selected(post[j], include_tests) && in_record(#[trigger] post[j], f);
                    if j < k {
                        assert(pre[j] == post[j]);
                        assert(compiled(pre, include_tests, f));
                    } else {
                        assert(post[j] == units@[k as int]);
                    }
                }
                if compiled(pre, include_tests, f) {
                    let j = choose|j: int|
                        0 <= j < pre.len() && selected(pre[j], include_tests) && in_record(#[trigger] pre[j], f);
                    assert(post[j] == pre[j]);
                }
                if selected(units@[k as int], include_tests) && in_record(units@[k as int], f) {
                    assert(post[k as int] == units@[k as int]);
                }
            }
        }
        k = k + 1;
    }
    assert(units@.subrange(0, units@.len() as int) =~= units@);
    r
}

} // verus!
