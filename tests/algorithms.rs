use grafo::{Graph, GraphError};

#[test]
fn grafo_ciclo() {
    let mut grafo = Graph::create(10, "->");
    grafo.add_edge_idx(0, 1, 1).unwrap();
    grafo.add_edge_idx(1, 2, 1).unwrap();
    grafo.add_edge_idx(2, 3, 1).unwrap();
    grafo.add_edge_idx(3, 1, 1).unwrap();
    grafo.add_edge_idx(3, 4, 1).unwrap();
    grafo.add_edge_idx(4, 0, 1).unwrap();
    assert_eq!(grafo.has_cycle(0), Ok(true));

    grafo = Graph::create(10, "->");
    grafo.add_edge_idx(0, 1, 1).unwrap();
    grafo.add_edge_idx(1, 2, 1).unwrap();
    grafo.add_edge_idx(2, 3, 1).unwrap();
    grafo.add_edge_idx(2, 4, 1).unwrap();
    assert_eq!(grafo.has_cycle(0), Ok(false));
}

#[test]
fn symmetric_graph_with_cycle() {
    let mut g = Graph::create(10, "<->");
    for (a, b) in [(0, 1), (1, 2), (2, 3), (3, 1), (3, 4), (4, 0)] {
        g.add_edge_idx(a, b, 1).unwrap();
    }
    assert_eq!(g.has_cycle(0), Ok(true));
}

#[test]
fn any_symmetric_edge_reads_as_cycle() {
    let mut g = Graph::create(3, "<->");
    g.add_edge_idx(0, 1, 1).unwrap();
    assert_eq!(g.has_cycle(0), Ok(true));
}

#[test]
fn two_paths_to_one_node_read_as_cycle() {
    let mut g = Graph::create(5, "->");
    g.add_edge_idx(0, 1, 1).unwrap();
    g.add_edge_idx(0, 2, 1).unwrap();
    g.add_edge_idx(1, 3, 1).unwrap();
    g.add_edge_idx(2, 3, 1).unwrap();
    assert_eq!(g.has_cycle(0), Ok(true));
}

#[test]
fn shared_sink_without_exits_is_no_cycle() {
    let mut g = Graph::create(4, "->");
    g.add_edge_idx(0, 1, 1).unwrap();
    g.add_edge_idx(0, 2, 1).unwrap();
    g.add_edge_idx(2, 1, 1).unwrap();
    assert_eq!(g.has_cycle(0), Ok(false));
}

#[test]
fn isolated_start_has_no_cycle() {
    let g = Graph::create(3, "->");
    assert_eq!(g.has_cycle(2), Ok(false));
    assert_eq!(g.has_cycle(3), Err(GraphError::IndexOutOfRange));
}

#[test]
fn fleury_needs_a_cycle() {
    let mut g = Graph::create(4, "->");
    g.add_edge_idx(0, 1, 1).unwrap();
    assert_eq!(g.fleury_feasible(0), Ok(false));
    assert_eq!(g.fleury_feasible(4), Err(GraphError::IndexOutOfRange));
}

#[test]
fn fleury_refuses_more_than_one_linked_node() {
    // Deviation from the real Eulerian-circuit criterion, kept on purpose:
    // a triangle has a circuit, yet three nodes carry edges.
    let mut g = Graph::create(3, "<->");
    g.add_edge_idx(0, 1, 1).unwrap();
    g.add_edge_idx(1, 2, 1).unwrap();
    g.add_edge_idx(2, 0, 1).unwrap();
    assert_eq!(g.has_cycle(0), Ok(true));
    assert_eq!(g.fleury_feasible(0), Ok(false));
}
