use unsafe_reach::graph::propagate;
use unsafe_reach::symbols::{match_findings, normalize, same_bytes};

fn b(s: &str) -> Vec<u8> {
    s.as_bytes().to_vec()
}

#[test]
fn normalize_strips_generic_list() {
    assert_eq!(normalize(&b("m::g::<i32>")), b("m::g"));
    assert_eq!(normalize(&b("m::g::<str>")), b("m::g"));
}

#[test]
fn normalize_strips_closure_segment() {
    assert_eq!(normalize(&b("m::f::{{closure}}")), b("m::f"));
}

#[test]
fn normalize_keeps_plain_path() {
    assert_eq!(normalize(&b("m::f")), b("m::f"));
    assert_eq!(normalize(&b("")), b(""));
    assert_eq!(normalize(&b("::")), b("::"));
}

#[test]
fn same_bytes_compares_contents() {
    assert!(same_bytes(&b("m::f"), &b("m::f")));
    assert!(!same_bytes(&b("m::f"), &b("m::g")));
    assert!(!same_bytes(&b("m::f"), &b("m::f2")));
}

#[test]
fn both_instantiations_match_one_finding() {
    let findings = vec![b("m::g")];
    let labels = vec![b("m::g::<i32>"), b("m::g::<str>"), b("m::h")];
    let m = match_findings(&findings, &labels);
    assert_eq!(m.direct, vec![true, true, false]);
    assert_eq!(m.unobserved, vec![false]);
}

#[test]
fn unmatched_finding_is_unobserved_and_taints_nothing() {
    let findings = vec![b("m::f"), b("m::gone")];
    let labels = vec![b("a"), b("b"), b("m::f")];
    let m = match_findings(&findings, &labels);
    assert_eq!(m.direct, vec![false, false, true]);
    assert_eq!(m.unobserved, vec![false, true]);
    let edges = vec![(0usize, 1usize), (1, 2)];
    let r = propagate(&edges, &m.direct);
    assert_eq!(r.tainted, vec![true, true, true]);
    let only = match_findings(&vec![b("m::f")], &labels);
    assert_eq!(propagate(&edges, &only.direct).tainted, r.tainted);
}

#[test]
fn matching_ignores_finding_order() {
    let labels = vec![b("x::a::<u8>"), b("y::b"), b("z")];
    let m1 = match_findings(&vec![b("x::a"), b("y::b")], &labels);
    let m2 = match_findings(&vec![b("y::b"), b("x::a"), b("x::a")], &labels);
    assert_eq!(m1.direct, m2.direct);
    assert_eq!(m1.direct, vec![true, true, false]);
}
