use unsafe_reach::scanset::{contains_bytes, resolve_scan_set, BuildUnit};

fn b(s: &str) -> Vec<u8> {
    s.as_bytes().to_vec()
}

fn units() -> Vec<BuildUnit> {
    vec![
        BuildUnit { is_test: false, dep_record: Some(vec![b("src/lib.rs"), b("src/a.rs")]) },
        BuildUnit { is_test: true, dep_record: Some(vec![b("src/lib.rs"), b("tests/t.rs")]) },
        BuildUnit { is_test: false, dep_record: None },
        BuildUnit { is_test: false, dep_record: Some(vec![b("src/a.rs"), b("src/b.rs")]) },
    ]
}

#[test]
fn union_of_records_without_duplicates() {
    let r = resolve_scan_set(&units(), false);
    assert_eq!(r, vec![b("src/lib.rs"), b("src/a.rs"), b("src/b.rs")]);
}

#[test]
fn test_units_count_when_asked() {
    let r = resolve_scan_set(&units(), true);
    assert_eq!(r, vec![b("src/lib.rs"), b("src/a.rs"), b("tests/t.rs"), b("src/b.rs")]);
}

#[test]
fn resolving_twice_gives_the_same_files() {
    let u = units();
    assert_eq!(resolve_scan_set(&u, false), resolve_scan_set(&u, false));
}

#[test]
fn no_units_no_files() {
    assert!(resolve_scan_set(&vec![], true).is_empty());
}

#[test]
fn contains_bytes_finds_entries() {
    let list = vec![b("x"), b("yz")];
    assert!(contains_bytes(&list, &b("yz")));
    assert!(!contains_bytes(&list, &b("y")));
}
