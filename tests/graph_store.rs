use grafo::{Graph, GraphError};

#[test]
fn usr_numero_conexoes() {
    let mut grafo = Graph::create(1000, "->");
    for i in 1..1000 {
        grafo.add_edge("0", &i.to_string(), 1).unwrap();
    }
    assert_eq!(grafo.degree("0"), Ok(999));
    assert_eq!(grafo.degree("0"), grafo.degree_idx(0));
}

#[test]
fn numero_conexoes() {
    let mut grafo = Graph::create(1000, "<->");
    for i in 1..1000 {
        grafo.add_edge_idx(0, i, 1).unwrap();
    }
    assert_eq!(grafo.degree_idx(0), Ok(999));
    assert_eq!(grafo.degree_idx(0), grafo.degree("0"));
}

#[test]
fn added_edge_is_present_in_directed_graph() {
    let mut g = Graph::create(4, "directed");
    assert_eq!(g.add_edge("a", "b", 0), Ok(()));
    assert_eq!(g.has_edge("a", "b"), Ok(true));
    assert_eq!(g.has_edge("b", "a"), Ok(false));
}

#[test]
fn added_edge_is_mirrored_in_symmetric_graph() {
    let mut g = Graph::create(4, "<->");
    assert_eq!(g.add_edge("a", "b", 3), Ok(()));
    assert_eq!(g.has_edge("a", "b"), Ok(true));
    assert_eq!(g.has_edge("b", "a"), Ok(true));
    assert_eq!(g.has_edge_idx(1, 0), Ok(true));
}

#[test]
fn unknown_mode_makes_symmetric_graph() {
    let mut g = Graph::create(3, "sideways");
    g.add_edge_idx(0, 2, 1).unwrap();
    assert_eq!(g.has_edge_idx(2, 0), Ok(true));
}

#[test]
fn labels_get_sequential_indices_and_read_back() {
    let mut g = Graph::create(5, "->");
    g.add_edge("x", "y", 1).unwrap();
    g.add_edge("z", "x", 1).unwrap();
    assert_eq!(g.index_of("x"), 0);
    assert_eq!(g.index_of("y"), 1);
    assert_eq!(g.index_of("z"), 2);
    for l in ["x", "y", "z"] {
        assert_eq!(g.label_of(g.index_of(l)), l);
    }
    assert_eq!(g.label_of(3), "");
}

#[test]
fn unknown_label_reads_as_index_zero() {
    let g = Graph::create(5, "->");
    assert_eq!(g.lookup("nobody"), None);
    assert_eq!(g.index_of("nobody"), 0);
}

#[test]
fn same_label_twice_takes_one_index() {
    let mut g = Graph::create(2, "->");
    assert_eq!(g.add_edge("a", "a", 4), Ok(()));
    assert_eq!(g.lookup("a"), Some(0));
    assert_eq!(g.label_of(1), "");
    assert_eq!(g.degree("a"), Ok(1));
}

#[test]
fn new_label_beyond_size_is_refused() {
    let mut g = Graph::create(2, "->");
    g.add_edge("a", "b", 1).unwrap();
    assert_eq!(g.add_edge("c", "a", 1), Err(GraphError::IndexOutOfRange));
    assert_eq!(g.lookup("c"), None);
    assert_eq!(g.has_edge("a", "b"), Ok(true));
}

#[test]
fn empty_graph_reports_out_of_range() {
    let mut g = Graph::create(0, "->");
    assert_eq!(g.degree("x"), Err(GraphError::IndexOutOfRange));
    assert_eq!(g.add_edge("x", "y", 1), Err(GraphError::IndexOutOfRange));
    assert_eq!(g.neighbors("x"), Err(GraphError::IndexOutOfRange));
}

#[test]
fn index_beyond_size_is_refused() {
    let mut g = Graph::create(3, "->");
    assert_eq!(g.add_edge_idx(0, 3, 1), Err(GraphError::IndexOutOfRange));
    assert_eq!(g.remove_edge_idx(3, 0), Err(GraphError::IndexOutOfRange));
    assert_eq!(g.degree_idx(7), Err(GraphError::IndexOutOfRange));
    assert_eq!(g.has_edge_idx(1, 9), Err(GraphError::IndexOutOfRange));
    assert_eq!(g.neighbors_idx(3), Err(GraphError::IndexOutOfRange));
}

#[test]
fn remove_edge_clears_both_directions_in_directed_graph() {
    let mut g = Graph::create(4, "->");
    g.add_edge("a", "b", 1).unwrap();
    g.add_edge("b", "a", 2).unwrap();
    assert_eq!(g.remove_edge("a", "b"), Ok(()));
    assert_eq!(g.has_edge("a", "b"), Ok(false));
    assert_eq!(g.has_edge("b", "a"), Ok(false));
}

#[test]
fn remove_edge_idx_clears_both_directions() {
    let mut g = Graph::create(4, "->");
    g.add_edge_idx(1, 2, 5).unwrap();
    g.add_edge_idx(2, 1, 5).unwrap();
    g.remove_edge_idx(1, 2).unwrap();
    assert_eq!(g.has_edge_idx(1, 2), Ok(false));
    assert_eq!(g.has_edge_idx(2, 1), Ok(false));
}

#[test]
fn removing_twice_equals_removing_once() {
    let mut once = Graph::create(4, "->");
    let mut twice = Graph::create(4, "->");
    for g in [&mut once, &mut twice] {
        g.add_edge("a", "b", 1).unwrap();
        g.add_edge("b", "c", 1).unwrap();
        g.add_edge("c", "a", 1).unwrap();
    }
    once.remove_edge("a", "b").unwrap();
    twice.remove_edge("a", "b").unwrap();
    twice.remove_edge("a", "b").unwrap();
    for a in 0..4 {
        assert_eq!(once.neighbors_idx(a), twice.neighbors_idx(a));
        assert_eq!(once.degree_idx(a), twice.degree_idx(a));
        for b in 0..4 {
            assert_eq!(once.has_edge_idx(a, b), twice.has_edge_idx(a, b));
        }
    }
}

#[test]
fn neighbors_exclude_the_node_itself() {
    let mut g = Graph::create(4, "->");
    g.add_edge_idx(2, 2, 1).unwrap();
    g.add_edge_idx(2, 0, 1).unwrap();
    g.add_edge_idx(2, 3, 1).unwrap();
    assert_eq!(g.neighbors_idx(2), Ok(vec![0, 3]));
    assert_eq!(g.degree_idx(2), Ok(3));
}

#[test]
fn neighbors_by_label_give_labels_in_index_order() {
    let mut g = Graph::create(5, "<->");
    g.add_edge("hub", "c", 1).unwrap();
    g.add_edge("hub", "a", 1).unwrap();
    g.add_edge("hub", "hub", 1).unwrap();
    g.add_edge_idx(0, 4, 1).unwrap();
    assert_eq!(
        g.neighbors("hub"),
        Ok(vec!["c".to_string(), "a".to_string(), "".to_string()])
    );
    assert_eq!(g.neighbors("a"), Ok(vec!["hub".to_string()]));
}

#[test]
fn negative_weight_is_no_edge() {
    let mut g = Graph::create(3, "->");
    g.add_edge_idx(0, 1, -5).unwrap();
    assert_eq!(g.has_edge_idx(0, 1), Ok(false));
    assert_eq!(g.neighbors_idx(0), Ok(vec![]));
    assert_eq!(g.degree_idx(0), Ok(0));
    g.add_edge_idx(0, 1, 0).unwrap();
    assert_eq!(g.has_edge_idx(0, 1), Ok(true));
    assert_eq!(g.neighbors_idx(0), Ok(vec![1]));
}

#[test]
fn degree_agrees_between_interfaces() {
    for mode in ["->", "<->"] {
        let mut g = Graph::create(6, mode);
        g.add_edge("p", "q", 1).unwrap();
        g.add_edge("p", "r", 2).unwrap();
        g.add_edge("s", "p", 2).unwrap();
        for l in ["p", "q", "r", "s"] {
            assert_eq!(g.degree(l), g.degree_idx(g.index_of(l)));
        }
    }
}

#[test]
fn cheapest_neighbor_takes_first_least_weight() {
    let mut g = Graph::create(5, "->");
    g.add_edge_idx(0, 1, 7).unwrap();
    g.add_edge_idx(0, 2, 3).unwrap();
    g.add_edge_idx(0, 3, 9).unwrap();
    g.add_edge_idx(0, 4, 3).unwrap();
    assert_eq!(g.cheapest_neighbor(0), Ok(2));
}

#[test]
fn cheapest_neighbor_errors() {
    let g = Graph::create(3, "->");
    assert_eq!(g.cheapest_neighbor(1), Err(GraphError::NoNeighbors));
    assert_eq!(g.cheapest_neighbor(3), Err(GraphError::IndexOutOfRange));
}
