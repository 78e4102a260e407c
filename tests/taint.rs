use unsafe_reach::graph::propagate;
use unsafe_reach::Args;

#[test]
fn cycle_with_one_unsafe_node_taints_both() {
    // a = 0, b = 1; a calls b, b calls a; b is directly unsafe.
    let edges = vec![(0usize, 1usize), (1, 0)];
    let direct = vec![false, true];
    let r = propagate(&edges, &direct);
    assert_eq!(r.tainted, vec![true, true]);
    assert_eq!(edges[r.step[0]], (0, 1));
}

#[test]
fn chain_reaches_unsafe_function() {
    // a = 0, b = 1, "m::f" = 2; a calls b, b calls m::f, which is directly unsafe.
    let edges = vec![(0usize, 1usize), (1, 2)];
    let direct = vec![false, false, true];
    let r = propagate(&edges, &direct);
    assert_eq!(r.tainted, vec![true, true, true]);
    assert_eq!(edges[r.step[0]], (0, 1));
    assert_eq!(edges[r.step[1]], (1, 2));
}

#[test]
fn chain_listed_callee_first() {
    let edges = vec![(1usize, 2usize), (0, 1)];
    let direct = vec![false, false, true];
    let r = propagate(&edges, &direct);
    assert_eq!(r.tainted, vec![true, true, true]);
}

#[test]
fn no_unsafe_node_gives_empty_taint() {
    let edges = vec![(0usize, 1usize), (1, 2), (2, 0)];
    let direct = vec![false, false, false];
    let r = propagate(&edges, &direct);
    assert_eq!(r.tainted, vec![false, false, false]);
}

#[test]
fn empty_graph_gives_empty_taint() {
    let edges: Vec<(usize, usize)> = vec![];
    let direct: Vec<bool> = vec![];
    let r = propagate(&edges, &direct);
    assert!(r.tainted.is_empty());
}

#[test]
fn callees_and_isolated_nodes_stay_clean() {
    // 0 calls 1 (directly unsafe); 1 calls 2; 3 is isolated.
    let edges = vec![(0usize, 1usize), (1, 2)];
    let direct = vec![false, true, false, false];
    let r = propagate(&edges, &direct);
    assert_eq!(r.tainted, vec![true, true, false, false]);
}

#[test]
fn args_hold_their_options() {
    let a = Args {
        build_plan: false,
        features: Some("x y".to_string()),
        all_features: false,
        no_default_features: true,
        manifest_path: None,
        jobs: Some(2),
        verbose: 1,
        quiet: false,
        color: None,
        frozen: false,
        locked: false,
        unstable_flags: vec![],
        include_tests: true,
        crate_name: "demo".to_string(),
    };
    assert_eq!(a.crate_name, "demo");
    assert!(a.include_tests);
}
