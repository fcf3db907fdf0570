use verified_collections::graph::Graph;

#[test]
fn test_bfs_all_nodes_visited() {
    let mut graph = Graph::new(5);
    graph.add_edge(0, 1);
    graph.add_edge(0, 4);
    graph.add_edge(1, 2);
    graph.add_edge(1, 3);
    graph.add_edge(1, 4);
    graph.add_edge(2, 3);
    graph.add_edge(3, 4);

    let visited_order = graph.bfs_with_return(0);
    assert_eq!(visited_order, vec![0, 1, 4, 2, 3]);
}

#[test]
fn test_bfs_different_start() {
    let mut graph = Graph::new(3);
    graph.add_edge(0, 1);
    graph.add_edge(1, 2);

    let visited_order = graph.bfs_with_return(2);
    assert_eq!(visited_order, vec![2, 1, 0]);
}

#[test]
fn test_bfs_with_cycle() {
    let mut graph = Graph::new(3);
    graph.add_edge(0, 1);
    graph.add_edge(1, 2);
    graph.add_edge(2, 0);

    let visited_order = graph.bfs_with_return(0);
    assert_eq!(visited_order, vec![0, 1, 2]);
}

#[test]
fn test_bfs_single_node() {
    let mut graph = Graph::new(1);

    let visited_order = graph.bfs_with_return(0);
    assert_eq!(visited_order, vec![0]);
}

#[test]
fn bfs_leaves_out_what_cannot_be_reached() {
    let mut graph = Graph::new(5);
    graph.add_edge(0, 1);
    graph.add_edge(3, 4);
    assert_eq!(graph.bfs_with_return(0), vec![0, 1]);
    assert_eq!(graph.bfs_with_return(4), vec![4, 3]);
    assert_eq!(graph.bfs_with_return(2), vec![2]);
}

#[test]
fn bfs_visits_once_despite_loops_and_doubled_edges() {
    let mut graph = Graph::new(3);
    graph.add_edge(0, 0);
    graph.add_edge(0, 2);
    graph.add_edge(0, 2);
    graph.add_edge(2, 1);
    assert_eq!(graph.bfs_with_return(0), vec![0, 2, 1]);
}

#[test]
fn bfs_follows_the_order_of_the_adjacency_lists() {
    let mut graph = Graph::new(6);
    graph.add_edge(0, 3);
    graph.add_edge(0, 1);
    graph.add_edge(3, 5);
    graph.add_edge(1, 2);
    graph.add_edge(1, 4);
    assert_eq!(graph.bfs_with_return(0), vec![0, 3, 1, 5, 2, 4]);
}
