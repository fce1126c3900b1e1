use rove::dag::Dag;

#[test]
fn test_transitive_reduce() {
    let mut dag: Dag<u32> = Dag::new();

    let node1 = dag.add_node(1);
    let node2 = dag.add_node(2);
    let node3 = dag.add_node(3);
    let node4 = dag.add_node(4);
    let node5 = dag.add_node(5);

    dag.add_edge(node1, node2);
    dag.add_edge(node1, node3);
    dag.add_edge(node1, node4);
    dag.add_edge(node1, node5);

    dag.add_edge(node2, node4);
    dag.add_edge(node3, node4);
    dag.add_edge(node3, node5);
    dag.add_edge(node4, node5);

    assert_eq!(dag.count_edges(), 8);
    assert!(dag.nodes.get(node1).unwrap().children.contains(&node4));
    assert!(dag.nodes.get(node1).unwrap().children.contains(&node5));
    assert!(dag.nodes.get(node3).unwrap().children.contains(&node5));

    dag.transitive_reduce();

    assert_eq!(dag.count_edges(), 5);
    assert!(!dag.nodes.get(node1).unwrap().children.contains(&node4));
    assert!(!dag.nodes.get(node1).unwrap().children.contains(&node5));
    assert!(!dag.nodes.get(node3).unwrap().children.contains(&node5));
}

#[test]
fn test_cycle_check() {
    let mut good_dag: Dag<u32> = Dag::new();

    let node1 = good_dag.add_node(1);
    let node2 = good_dag.add_node(2);
    let node3 = good_dag.add_node(3);
    let node4 = good_dag.add_node(4);

    good_dag.add_edge(node1, node2);
    good_dag.add_edge(node1, node3);
    good_dag.add_edge(node2, node4);
    good_dag.add_edge(node3, node4);

    assert!(!good_dag.cycle_check());

    let mut bad_dag: Dag<u32> = Dag::new();

    let node1 = bad_dag.add_node(1);
    let node2 = bad_dag.add_node(2);
    let node3 = bad_dag.add_node(3);
    let node4 = bad_dag.add_node(4);

    bad_dag.add_edge(node1, node2);
    bad_dag.add_edge(node1, node3);
    bad_dag.add_edge(node2, node4);
    bad_dag.add_edge(node4, node3);
    bad_dag.add_edge(node3, node2);

    assert!(bad_dag.cycle_check());
}

#[test]
fn test_add_node_with_children_builds_edges() {
    let mut dag: Dag<&'static str> = Dag::new();

    let test6 = dag.add_node("test6");
    let test4 = dag.add_node_with_children("test4", vec![test6]);
    let test5 = dag.add_node_with_children("test5", vec![test6]);
    let test2 = dag.add_node_with_children("test2", vec![test4]);
    let test3 = dag.add_node_with_children("test3", vec![test5]);
    let test1 = dag.add_node_with_children("test1", vec![test2, test3]);

    assert_eq!(dag.count_edges(), 6);
    assert_eq!(dag.roots, vec![test1]);
    assert_eq!(dag.leaves, vec![test6]);
    assert!(!dag.cycle_check());
}

#[test]
fn test_count_edges_sees_only_root_reachable_edges() {
    let mut dag: Dag<u32> = Dag::new();

    let a = dag.add_node(1);
    let b = dag.add_node(2);
    dag.add_edge(a, b);
    dag.add_edge(b, a);

    // both nodes sit on a cycle, so neither is a root: no edge hangs from
    // a root, and the root-bound cycle search does not see the cycle
    assert_eq!(dag.count_edges(), 0);
    assert!(!dag.cycle_check());

    // hang the cycle from a fresh root and everything becomes visible
    let c = dag.add_node(3);
    dag.add_edge(c, a);
    assert_eq!(dag.count_edges(), 3);
    assert!(dag.cycle_check());
}

#[test]
fn test_default_is_empty() {
    let dag: Dag<u32> = Dag::default();
    assert_eq!(dag.nodes.len(), 0);
    assert_eq!(dag.count_edges(), 0);
}
