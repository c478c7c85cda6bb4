//! The mathematical model of a graph: its size, its direction mode, its
//! weight matrix and its label table, and what each operation does to it.
use vstd::prelude::*;

verus! {

/// What a graph operation reports instead of touching memory it does not own.
#[derive(Clone, Copy, Debug, PartialEq, Eq, Structural)]
pub enum GraphError {
    /// A node index at or beyond the graph's size.
    IndexOutOfRange,
    /// The node has no neighbour to choose from.
    NoNeighbors,
}

/// The weight that marks an absent edge.
pub const NO_EDGE: i64 = -1;

/// The abstract state of a graph.
pub struct GraphModel {
    /// Number of nodes; indices run over `0..size`.
    pub size: nat,
    /// Whether every edge written is mirrored.
    pub symmetric: bool,
    /// `weights[a][b]` is the weight of the edge from `a` to `b`, a whole
    /// number; a negative weight means there is no edge, so an edge of
    /// negative weight cannot be held.
    pub weights: Seq<Seq<i64>>,
    /// `labels[i]` is the label assigned to node `i`.
    pub labels: Seq<Seq<char>>,
}

/// The mode text that selects a directed graph; any other text selects a
/// symmetric one.
pub open spec fn is_directed_mode(mode: Seq<char>) -> bool {
    mode == "->"@ || mode == "directed"@
}

/// Number of entries among the first `n` of `row` that mark a present edge.
pub open spec fn count_present(row: Seq<i64>, n: int) -> nat
    decreases n,
{
    if n <= 0 {
        0
    } else {
        count_present(row, n - 1) + if row[n - 1] >= 0 {
            1nat
        } else {
            0nat
        }
    }
}

/// In increasing order, the indices `j` among the first `n` of `row` with
/// `j != a` and a weight above the sentinel.
pub open spec fn neighbor_prefix(row: Seq<i64>, a: int, n: int) -> Seq<usize>
    decreases n,
{
    if n <= 0 {
        Seq::empty()
    } else {
        let p = neighbor_prefix(row, a, n - 1);
        if n - 1 != a && row[n - 1] > NO_EDGE {
            p.push((n - 1) as usize)
        } else {
            p
        }
    }
}

/// What the neighbour list of a row holds: the indices below `n` other than
/// `a` whose weight is above the sentinel, each once, in increasing order.
pub proof fn lemma_neighbor_prefix(row: Seq<i64>, a: int, n: int)
    requires
        0 <= n <= row.len(),
        n <= usize::MAX + 1,
    ensures
        forall|k: int|
            0 <= k < neighbor_prefix(row, a, n).len() ==> {
                let j = #[trigger] neighbor_prefix(row, a, n)[k] as int;
                0 <= j < n && j != a && row[j] > NO_EDGE
            },
        forall|k1: int, k2: int|
            0 <= k1 < k2 < neighbor_prefix(row, a, n).len() ==> neighbor_prefix(row, a, n)[k1]
                < neighbor_prefix(row, a, n)[k2],
        forall|j: int|
            0 <= j < n && j != a && row[j] > NO_EDGE ==> neighbor_prefix(row, a, n).contains(
                j as usize,
            ),
        neighbor_prefix(row, a, n).len() <= n,
    decreases n,
{
    if n > 0 {
        lemma_neighbor_prefix(row, a, n - 1);
        let p = neighbor_prefix(row, a, n - 1);
        if n - 1 != a && row[n - 1] > NO_EDGE {
            let q = p.push((n - 1) as usize);
            assert(q[p.len() as int] == (n - 1) as usize);
            assert forall|j: int| 0 <= j < n && j != a && row[j] > NO_EDGE implies q.contains(
                j as usize,
            ) by {
                if j < n - 1 {
                    let k = choose|k: int| 0 <= k < p.len() && p[k] == j as usize;
                    assert(q[k] == j as usize);
                }
            }
        }
    }
}

/// The state that an operation returning `r` left behind, in the shape of
/// the model's result for that operation.
pub open spec fn outcome(r: Result<(), GraphError>, after: GraphModel) -> Result<GraphModel, GraphError> {
    match r {
        Ok(_) => Ok(after),
        Err(e) => Err(e),
    }
}

impl GraphModel {
    /// The matrix is square, of side `size`.
    pub open spec fn square(self) -> bool {
        &&& self.size <= usize::MAX
        &&& self.weights.len() == self.size
        &&& forall|i: int| 0 <= i < self.size ==> (#[trigger] self.weights[i]).len() == self.size
    }

    /// The shape that every reachable graph state keeps.
    pub open spec fn wf(self) -> bool {
        &&& self.square()
        &&& self.labels.len() <= self.size
        &&& forall|i: int, j: int|
            0 <= i < self.labels.len() && 0 <= j < self.labels.len() && i != j
                ==> self.labels[i] != self.labels[j]
        &&& self.symmetric ==> forall|i: int, j: int|
            0 <= i < self.size && 0 <= j < self.size
                ==> (#[trigger] self.weights[i][j]) == self.weights[j][i]
    }

    /// A graph of `size` nodes with no edge and no label.
    pub open spec fn empty(size: nat, symmetric: bool) -> GraphModel {
        GraphModel {
            size,
            symmetric,
            weights: Seq::new(size, |i: int| Seq::new(size, |j: int| NO_EDGE)),
            labels: Seq::empty(),
        }
    }

    pub open spec fn in_range(self, a: int) -> bool {
        0 <= a < self.size
    }

    /// The index assigned to `label`, or 0 where none is.
    pub open spec fn index_of(self, label: Seq<char>) -> int {
        if self.labels.contains(label) {
            choose|i: int| 0 <= i < self.labels.len() && self.labels[i] == label
        } else {
            0
        }
    }

    /// The label assigned to index `i`, or the empty text where none is.
    pub open spec fn label_of(self, i: int) -> Seq<char> {
        if 0 <= i < self.labels.len() {
            self.labels[i]
        } else {
            Seq::empty()
        }
    }

    pub open spec fn edge(self, a: int, b: int) -> bool {
        self.weights[a][b] >= 0
    }

    /// Number of present edges in row `a`, the loop on `a` included.
    pub open spec fn degree(self, a: int) -> nat {
        count_present(self.weights[a], self.size as int)
    }

    /// The other nodes that row `a` reaches, in increasing order.
    pub open spec fn neighbors(self, a: int) -> Seq<usize> {
        neighbor_prefix(self.weights[a], a, self.size as int)
    }

    pub open spec fn set_weight(self, a: int, b: int, w: i64) -> GraphModel {
        GraphModel { weights: self.weights.update(a, self.weights[a].update(b, w)), ..self }
    }

    /// `m` is the first of the neighbours of `a`, in their order, whose edge
    /// weight is the least among them.
    pub open spec fn is_cheapest_neighbor(self, a: int, m: usize) -> bool {
        let ns = self.neighbors(a);
        exists|b: int|
            0 <= b < ns.len() && ns[b] == m && forall|x: int|
                0 <= x < ns.len() ==> self.weights[a][m as int] <= #[trigger] self.weights[a][ns[x] as int]
                    && (x < b ==> self.weights[a][m as int] < self.weights[a][ns[x] as int])
    }

    /// Writes `w` from `a` to `b`, and back where the graph is symmetric.
    pub open spec fn with_edge(self, a: int, b: int, w: i64) -> GraphModel {
        let g = self.set_weight(a, b, w);
        if self.symmetric {
            g.set_weight(b, a, w)
        } else {
            g
        }
    }

    /// Clears the edge from `a` to `b` and the one back, whatever the mode.
    pub open spec fn without_edge(self, a: int, b: int) -> GraphModel {
        self.set_weight(a, b, NO_EDGE).set_weight(b, a, NO_EDGE)
    }

    /// Assigns the next index to `label` unless it has one.
    pub open spec fn register(self, label: Seq<char>) -> GraphModel {
        if self.labels.contains(label) {
            self
        } else {
            GraphModel { labels: self.labels.push(label), ..self }
        }
    }

    pub open spec fn add_edge_at(self, a: int, b: int, w: i64) -> Result<GraphModel, GraphError> {
        if self.in_range(a) && self.in_range(b) {
            Ok(self.with_edge(a, b, w))
        } else {
            Err(GraphError::IndexOutOfRange)
        }
    }

    pub open spec fn remove_edge_at(self, a: int, b: int) -> Result<GraphModel, GraphError> {
        if self.in_range(a) && self.in_range(b) {
            Ok(self.without_edge(a, b))
        } else {
            Err(GraphError::IndexOutOfRange)
        }
    }

    pub open spec fn degree_at(self, a: int) -> Result<usize, GraphError> {
        if self.in_range(a) {
            Ok(self.degree(a) as usize)
        } else {
            Err(GraphError::IndexOutOfRange)
        }
    }

    pub open spec fn has_edge_at(self, a: int, b: int) -> Result<bool, GraphError> {
        if self.in_range(a) && self.in_range(b) {
            Ok(self.edge(a, b))
        } else {
            Err(GraphError::IndexOutOfRange)
        }
    }

    pub open spec fn neighbors_at(self, a: int) -> Result<Seq<usize>, GraphError> {
        if self.in_range(a) {
            Ok(self.neighbors(a))
        } else {
            Err(GraphError::IndexOutOfRange)
        }
    }

    /// Registers the labels not yet known, then writes the edge between the
    /// labels' indices; fails, changing nothing, where a new label would get
    /// an index outside the graph.
    pub open spec fn add_edge_by_label(self, a: Seq<char>, b: Seq<char>, w: i64) -> Result<
        GraphModel,
        GraphError,
    > {
        let g = self.register(a).register(b);
        if g.labels.len() <= g.size {
            g.add_edge_at(g.index_of(a), g.index_of(b), w)
        } else {
            Err(GraphError::IndexOutOfRange)
        }
    }

    pub open spec fn remove_edge_by_label(self, a: Seq<char>, b: Seq<char>) -> Result<
        GraphModel,
        GraphError,
    > {
        self.remove_edge_at(self.index_of(a), self.index_of(b))
    }

    pub open spec fn degree_by_label(self, label: Seq<char>) -> Result<usize, GraphError> {
        self.degree_at(self.index_of(label))
    }

    pub open spec fn has_edge_by_label(self, a: Seq<char>, b: Seq<char>) -> Result<bool, GraphError> {
        self.has_edge_at(self.index_of(a), self.index_of(b))
    }

    pub open spec fn neighbors_by_label(self, label: Seq<char>) -> Result<Seq<Seq<char>>, GraphError> {
        match self.neighbors_at(self.index_of(label)) {
            Ok(ns) => Ok(ns.map_values(|j: usize| self.label_of(j as int))),
            Err(e) => Err(e),
        }
    }
}

} // verus!
