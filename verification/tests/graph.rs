use hird_check::graph::tarjan;

/// A self-loop is its own one-node component, not an error.
#[test]
fn self_loop_is_one_component() {
    let graph: Vec<Vec<usize>> = vec![vec![0]];
    let expected: Vec<Vec<usize>> = vec![vec![0]];
    assert_eq!(tarjan(&graph), expected);
}

/// Edgeless nodes are each their own component.
#[test]
fn isolated_nodes_are_singletons() {
    let graph: Vec<Vec<usize>> = vec![vec![], vec![], vec![]];
    let expected: Vec<Vec<usize>> = vec![vec![0], vec![1], vec![2]];
    assert_eq!(tarjan(&graph), expected);
}

/// A 2-cycle (`0 → 1 → 0`) collapses to a single component, held
/// ascending.
#[test]
fn mutual_recursion_is_one_component() {
    let graph: Vec<Vec<usize>> = vec![vec![1], vec![0]];
    let expected: Vec<Vec<usize>> = vec![vec![0, 1]];
    assert_eq!(tarjan(&graph), expected);
}

/// `0 → 1` with `1` a leaf emits the callee first.
#[test]
fn callee_is_emitted_before_caller() {
    let graph: Vec<Vec<usize>> = vec![vec![1], vec![]];
    let expected: Vec<Vec<usize>> = vec![vec![1], vec![0]];
    assert_eq!(tarjan(&graph), expected);
}

/// A diamond (`0 → {1, 2} → 3`) emits the shared sink `3` first and the
/// root `0` last.
#[test]
fn diamond_orders_sink_first_root_last() {
    let graph: Vec<Vec<usize>> = vec![vec![1, 2], vec![3], vec![3], vec![]];
    let result = tarjan(&graph);
    assert_eq!(result.first(), Some(&vec![3]), "sink first");
    assert_eq!(result.last(), Some(&vec![0]), "root last");
    assert_eq!(result.len(), 4, "four singleton components");
}

/// A cycle with an external dependant (`0 ↔ 1`, `2 → 0`) emits the cycle
/// as one component before its caller `2`.
#[test]
fn cycle_precedes_its_dependant() {
    let graph: Vec<Vec<usize>> = vec![vec![1], vec![0], vec![0]];
    let expected: Vec<Vec<usize>> = vec![vec![0, 1], vec![2]];
    assert_eq!(tarjan(&graph), expected);
}

#[test]
fn empty_graph_has_no_components() {
    let graph: Vec<Vec<usize>> = vec![];
    assert!(tarjan(&graph).is_empty());
}

#[test]
fn components_are_sorted_and_partition_the_nodes() {
    // 0 → 3 → 1 → 0 is one cycle; 2 → 4 → 2 another; 5 calls into both.
    let graph: Vec<Vec<usize>> = vec![vec![3], vec![0], vec![4], vec![1], vec![2], vec![0, 2]];
    let result = tarjan(&graph);
    assert_eq!(result, vec![vec![0, 1, 3], vec![2, 4], vec![5]]);
}

#[test]
fn long_chain_is_emitted_in_reverse() {
    let n = 50;
    let graph: Vec<Vec<usize>> = (0..n).map(|i| if i + 1 < n { vec![i + 1] } else { vec![] }).collect();
    let result = tarjan(&graph);
    let expected: Vec<Vec<usize>> = (0..n).rev().map(|i| vec![i]).collect();
    assert_eq!(result, expected);
}

#[test]
fn duplicate_edges_change_nothing() {
    let graph: Vec<Vec<usize>> = vec![vec![1, 1, 1], vec![0, 0]];
    assert_eq!(tarjan(&graph), vec![vec![0, 1]]);
}

#[test]
fn components_follow_the_first_node_that_reaches_them() {
    let g = vec![vec![2], vec![], vec![]];
    assert_eq!(tarjan(&g), vec![vec![2], vec![0], vec![1]]);
    let h = vec![vec![], vec![0], vec![1]];
    assert_eq!(tarjan(&h), vec![vec![0], vec![1], vec![2]]);
}
