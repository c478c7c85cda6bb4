//! What holds across the graph operations, stated over the model and proved.
use vstd::prelude::*;
use crate::model::{GraphError, GraphModel, NO_EDGE, lemma_neighbor_prefix};

verus! {

/// The index that a known label reads as holds that label.
proof fn lemma_index_of(g: GraphModel, label: Seq<char>)
    requires
        g.labels.contains(label),
    ensures
        0 <= g.index_of(label) < g.labels.len(),
        g.labels[g.index_of(label)] == label,
{
}

/// Registering a label makes it known and keeps the labels already known.
proof fn lemma_register(g: GraphModel, label: Seq<char>)
    ensures
        g.register(label).labels.contains(label),
        forall|l: Seq<char>| g.labels.contains(l) ==> g.register(label).labels.contains(l),
        g.register(label).weights == g.weights,
        g.register(label).size == g.size,
        g.register(label).symmetric == g.symmetric,
{
    let h = g.register(label);
    if !g.labels.contains(label) {
        assert(h.labels[g.labels.len() as int] == label);
        assert forall|l: Seq<char>| g.labels.contains(l) implies h.labels.contains(l) by {
            let k = choose|k: int| 0 <= k < g.labels.len() && g.labels[k] == l;
            assert(h.labels[k] == l);
        }
    }
}

/// After an edge of weight `w >= 0` is added between two labels, the edge is
/// present, and so is the one back in a symmetric graph.
pub proof fn law_added_edge_is_present(g: GraphModel, a: Seq<char>, b: Seq<char>, w: i64)
    requires
        g.wf(),
        w >= 0,
    ensures
        match g.add_edge_by_label(a, b, w) {
            Ok(h) => h.has_edge_by_label(a, b) == Ok::<bool, GraphError>(true) && (g.symmetric
                ==> h.has_edge_by_label(b, a) == Ok::<bool, GraphError>(true)),
            Err(_) => true,
        },
{
    let g1 = g.register(a);
    let g2 = g1.register(b);
    lemma_register(g, a);
    lemma_register(g1, b);
    if g2.labels.len() <= g2.size {
        lemma_index_of(g2, a);
        lemma_index_of(g2, b);
        assert(g2.wf());
        law_added_edge_is_present_idx(g2, g2.index_of(a), g2.index_of(b), w);
    }
}

/// After an edge of weight `w >= 0` is added between two indices, the edge
/// is present, and so is the one back in a symmetric graph.
pub proof fn law_added_edge_is_present_idx(g: GraphModel, a: int, b: int, w: i64)
    requires
        g.wf(),
        w >= 0,
    ensures
        match g.add_edge_at(a, b, w) {
            Ok(h) => h.has_edge_at(a, b) == Ok::<bool, GraphError>(true) && (g.symmetric
                ==> h.has_edge_at(b, a) == Ok::<bool, GraphError>(true)),
            Err(_) => true,
        },
{
}

/// The degree of a labelled node is the same through its label and through
/// its index.
pub proof fn law_degree_interfaces_agree(g: GraphModel, label: Seq<char>, i: int)
    requires
        g.wf(),
        0 <= i < g.labels.len(),
        g.labels[i] == label,
    ensures
        g.degree_by_label(label) == g.degree_at(i),
{
    assert(g.labels.contains(label));
    lemma_index_of(g, label);
}

/// A known label reads back from its index.
pub proof fn law_label_round_trip(g: GraphModel, label: Seq<char>)
    requires
        g.labels.contains(label),
    ensures
        g.label_of(g.index_of(label)) == label,
{
    lemma_index_of(g, label);
}

/// Adding an edge between two labels makes both known, and each reads back
/// from its index.
pub proof fn law_add_edge_registers_labels(g: GraphModel, a: Seq<char>, b: Seq<char>, w: i64)
    ensures
        match g.add_edge_by_label(a, b, w) {
            Ok(h) => h.labels.contains(a) && h.labels.contains(b) && h.label_of(h.index_of(a)) == a
                && h.label_of(h.index_of(b)) == b,
            Err(_) => true,
        },
{
    let g1 = g.register(a);
    lemma_register(g, a);
    lemma_register(g1, b);
    let g2 = g1.register(b);
    if g2.labels.len() <= g2.size {
        lemma_index_of(g2, a);
        lemma_index_of(g2, b);
    }
}

/// After the edge between two labels is removed, neither it nor the one
/// back is present, whatever the mode.
pub proof fn law_removed_edge_is_absent(g: GraphModel, a: Seq<char>, b: Seq<char>)
    requires
        g.wf(),
    ensures
        match g.remove_edge_by_label(a, b) {
            Ok(h) => h.has_edge_by_label(a, b) == Ok::<bool, GraphError>(false)
                && h.has_edge_by_label(b, a) == Ok::<bool, GraphError>(false),
            Err(_) => true,
        },
{
    law_removed_edge_is_absent_idx(g, g.index_of(a), g.index_of(b));
}

/// After the edge between two indices is removed, neither it nor the one
/// back is present, whatever the mode.
pub proof fn law_removed_edge_is_absent_idx(g: GraphModel, a: int, b: int)
    requires
        g.wf(),
    ensures
        match g.remove_edge_at(a, b) {
            Ok(h) => h.has_edge_at(a, b) == Ok::<bool, GraphError>(false) && h.has_edge_at(b, a)
                == Ok::<bool, GraphError>(false),
            Err(_) => true,
        },
{
}

/// No node is among its own neighbours.
pub proof fn law_neighbors_exclude_self_idx(g: GraphModel, a: int)
    requires
        g.wf(),
    ensures
        match g.neighbors_at(a) {
            Ok(ns) => !ns.contains(a as usize),
            Err(_) => true,
        },
{
    if g.in_range(a) {
        lemma_neighbor_prefix(g.weights[a], a, g.size as int);
    }
}

/// The neighbour labels of a non-empty label never include that label.
pub proof fn law_neighbors_exclude_self(g: GraphModel, label: Seq<char>)
    requires
        g.wf(),
        label.len() > 0,
    ensures
        match g.neighbors_by_label(label) {
            Ok(ls) => !ls.contains(label),
            Err(_) => true,
        },
{
    let i = g.index_of(label);
    if g.in_range(i) {
        let ns = g.neighbors(i);
        lemma_neighbor_prefix(g.weights[i], i, g.size as int);
        let ls = ns.map_values(|j: usize| g.label_of(j as int));
        if g.labels.contains(label) {
            lemma_index_of(g, label);
        }
        assert forall|k: int| 0 <= k < ls.len() implies ls[k] != label by {
            let j = ns[k] as int;
            assert(j != i);
            if j >= g.labels.len() {
                assert(ls[k].len() == 0);
            }
        }
    }
}

/// Removing the edge between two labels a second time changes nothing.
pub proof fn law_remove_edge_idempotent(g: GraphModel, a: Seq<char>, b: Seq<char>)
    requires
        g.wf(),
    ensures
        match g.remove_edge_by_label(a, b) {
            Ok(h) => h.remove_edge_by_label(a, b) == Ok::<GraphModel, GraphError>(h),
            Err(_) => true,
        },
{
    law_remove_edge_idempotent_idx(g, g.index_of(a), g.index_of(b));
}

/// Removing the edge between two indices a second time changes nothing.
pub proof fn law_remove_edge_idempotent_idx(g: GraphModel, a: int, b: int)
    requires
        g.wf(),
    ensures
        match g.remove_edge_at(a, b) {
            Ok(h) => h.remove_edge_at(a, b) == Ok::<GraphModel, GraphError>(h),
            Err(_) => true,
        },
{
    if g.in_range(a) && g.in_range(b) {
        let h = g.without_edge(a, b);
        let h2 = h.without_edge(a, b);
        assert forall|i: int| 0 <= i < h.weights.len() implies h2.weights[i] == h.weights[i] by {
            assert(h2.weights[i] =~= h.weights[i]);
        }
        assert(h2.weights =~= h.weights);
    }
}

} // verus!
