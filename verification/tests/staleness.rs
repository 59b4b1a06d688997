use hbuild::{is_stale, need_relink, reachable_from, select_stale};

fn graph(edges: Vec<Vec<usize>>) -> Vec<Vec<usize>> {
    edges
}

#[test]
fn missing_object_is_always_stale() {
    // A source with no object file must be rebuilt, whatever the mtimes.
    let g = graph(vec![vec![], vec![]]);
    let mtimes = vec![Some(10u64), Some(10u64)];
    assert!(is_stale(&g, &mtimes, None, 0));
    assert!(is_stale(&g, &mtimes, None, 1));
}

#[test]
fn fresh_object_is_not_stale() {
    // Object newer than the source and all transitively included headers.
    let g = graph(vec![vec![2], vec![], vec![]]);
    let mtimes = vec![Some(10u64), Some(10u64), Some(10u64)];
    assert!(!is_stale(&g, &mtimes, Some(20), 0));
    assert!(!is_stale(&g, &mtimes, Some(20), 1));
}

#[test]
fn second_build_recompiles_nothing_and_does_not_relink() {
    let g = graph(vec![vec![2], vec![2], vec![]]);
    let mtimes = vec![Some(10u64), Some(10u64), Some(10u64)];
    let sources = vec![0usize, 1usize];
    let objs = vec![Some(20u64), Some(20u64)];
    let stale = select_stale(&g, &mtimes, &sources, &objs);
    assert!(stale.is_empty());
    assert!(!need_relink(Some(30), false, &vec![Some(20u64), Some(20u64)]));
}

#[test]
fn touched_header_marks_only_includers_stale() {
    // Source 0 includes header 2; source 1 does not.
    let g = graph(vec![vec![2], vec![], vec![]]);
    let mut mtimes = vec![Some(10u64), Some(10u64), Some(10u64)];
    assert!(!is_stale(&g, &mtimes, Some(20), 0));
    assert!(!is_stale(&g, &mtimes, Some(20), 1));
    mtimes[2] = Some(40); // touch the header
    assert!(is_stale(&g, &mtimes, Some(20), 0));
    assert!(!is_stale(&g, &mtimes, Some(20), 1));
}

#[test]
fn transitively_included_header_counts() {
    // 0 -> 1 -> 2: touching 2 makes 0 stale.
    let g = graph(vec![vec![1], vec![2], vec![]]);
    let mtimes = vec![Some(10u64), Some(10u64), Some(40u64)];
    assert!(is_stale(&g, &mtimes, Some(20), 0));
}

#[test]
fn cyclic_graph_terminates_with_deterministic_answer() {
    // Header 0 includes 1 and 1 includes 0: no non-termination, one answer.
    let g = graph(vec![vec![1], vec![0]]);
    let fresh = vec![Some(10u64), Some(10u64)];
    assert!(!is_stale(&g, &fresh, Some(20), 0));
    assert!(!is_stale(&g, &fresh, Some(20), 1));
    let touched = vec![Some(10u64), Some(30u64)];
    assert!(is_stale(&g, &touched, Some(20), 0));
    assert!(is_stale(&g, &touched, Some(20), 1));
    // The same query twice gives the same answer.
    assert_eq!(
        is_stale(&g, &touched, Some(20), 0),
        is_stale(&g, &touched, Some(20), 0)
    );
}

#[test]
fn self_inclusion_from_dependency_listing_is_harmless() {
    // The toolchain lists the file itself among its dependencies.
    let g = graph(vec![vec![0, 1], vec![]]);
    let mtimes = vec![Some(10u64), Some(10u64)];
    assert!(!is_stale(&g, &mtimes, Some(20), 0));
}

#[test]
fn unreadable_file_is_stale() {
    let g = graph(vec![vec![1], vec![]]);
    let mtimes = vec![Some(10u64), None];
    assert!(is_stale(&g, &mtimes, Some(20), 0));
}

#[test]
fn reachable_set_is_exact() {
    let g = graph(vec![vec![1], vec![2], vec![], vec![]]);
    let vis = reachable_from(&g, 0);
    assert_eq!(vis, vec![true, true, true, false]);
}

#[test]
fn select_stale_returns_positions_in_order() {
    let g = graph(vec![vec![], vec![], vec![]]);
    let mtimes = vec![Some(30u64), Some(10u64), Some(30u64)];
    let sources = vec![0usize, 1usize, 2usize];
    let objs = vec![Some(20u64), Some(20u64), None];
    let stale = select_stale(&g, &mtimes, &sources, &objs);
    assert_eq!(stale, vec![0usize, 2usize]);
}

#[test]
fn touching_common_header_rebuilds_only_its_includer_then_relinks() {
    // Project: a.c (0) and b.c (1); b.c includes common.h (2).
    let g = graph(vec![vec![0], vec![1, 2], vec![]]);
    let mtimes = vec![Some(10u64), Some(10u64), Some(10u64)];
    let sources = vec![0usize, 1usize];

    // First build: no objects exist, both compile, then a link happens.
    let objs = vec![None, None];
    let stale = select_stale(&g, &mtimes, &sources, &objs);
    assert_eq!(stale, vec![0usize, 1usize]);
    assert!(need_relink(None, true, &vec![None, None]));

    // Both objects and the target now exist; nothing to do.
    let objs = vec![Some(20u64), Some(20u64)];
    let stale = select_stale(&g, &mtimes, &sources, &objs);
    assert!(stale.is_empty());
    assert!(!need_relink(Some(30), false, &vec![Some(20u64), Some(20u64)]));

    // Touch common.h: only b.c recompiles, and the target relinks.
    let mtimes = vec![Some(10u64), Some(10u64), Some(40u64)];
    let stale = select_stale(&g, &mtimes, &sources, &objs);
    assert_eq!(stale, vec![1usize]);
    assert!(need_relink(Some(30), true, &vec![Some(20u64), Some(50u64)]));
}
