use implicit_search::{bfs, bsearch, bsearch_count, dfs};

#[test]
fn bfs_matches_membership_on_small_inputs() {
    for size in 0..=8usize {
        for target in 0..=9usize {
            assert_eq!(bfs(size, target), target < size);
        }
    }
}

#[test]
fn dfs_matches_membership_on_small_inputs() {
    for size in 0..=8usize {
        for target in 0..=9usize {
            assert_eq!(dfs(size, target), target < size);
        }
    }
}

#[test]
fn bsearch_matches_membership_on_small_inputs() {
    for size in 0..=8usize {
        for target in 0..=9usize {
            assert_eq!(bsearch(size, target), target < size);
        }
    }
}

#[test]
fn bfs_and_dfs_agree() {
    for size in 0..=16usize {
        for target in 0..=17usize {
            assert_eq!(bfs(size, target), dfs(size, target));
        }
    }
}

#[test]
fn empty_structures_find_nothing() {
    for target in [0usize, 1, 7, usize::MAX] {
        assert!(!bfs(0, target));
        assert!(!dfs(0, target));
        assert!(!bsearch(0, target));
    }
}

#[test]
fn single_node_holds_only_the_root() {
    assert!(bfs(1, 0));
    assert!(dfs(1, 0));
    assert!(bsearch(1, 0));
    assert!(!bfs(1, 1));
    assert!(!dfs(1, 1));
    assert!(!bsearch(1, 1));
}

#[test]
fn default_like_invocation_finds_last_index() {
    assert!(bfs(100_000, 99_999));
    assert!(dfs(100_000, 99_999));
    assert!(bsearch(100_000, 99_999));
}

#[test]
fn target_one_past_the_end_is_missing() {
    assert!(!bfs(100_000, 100_000));
    assert!(!dfs(100_000, 100_000));
    assert!(!bsearch(100_000, 100_000));
}

#[test]
fn large_input_found_and_bisection_is_logarithmic() {
    assert!(bfs(1_000_000, 500_000));
    assert!(dfs(1_000_000, 500_000));
    let (found, probes) = bsearch_count(1_000_000, 500_000);
    assert!(found);
    assert!(probes <= 21);
}

#[test]
fn probe_count_never_exceeds_size() {
    for size in 0..=9usize {
        for target in 0..=10usize {
            let (found, probes) = bsearch_count(size, target);
            assert_eq!(found, target < size);
            assert!(probes as usize <= size);
        }
    }
}

#[test]
fn bisection_handles_huge_sizes() {
    assert!(bsearch(usize::MAX, usize::MAX - 1));
    assert!(!bsearch(usize::MAX, usize::MAX));
    assert!(bsearch(usize::MAX, 0));
}

#[test]
fn traversals_stop_early_on_a_shallow_match() {
    // The tree is astronomically large, but the match sits near the root:
    // breadth-first reaches node 2 on the second level, and depth-first
    // walks the left spine 0, 1, 3, ..., 127 in a handful of pops.
    assert!(bfs(usize::MAX, 2));
    assert!(dfs(usize::MAX - 1, 127));
}
