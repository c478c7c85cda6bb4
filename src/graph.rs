//! The graph store: a weight matrix and a label table, with a label-keyed
//! interface over an index-keyed one.
use vstd::prelude::*;
use crate::model::{GraphError, GraphModel, NO_EDGE, count_present, is_directed_mode, lemma_neighbor_prefix, neighbor_prefix, outcome};

verus! {

/// A weighted graph over a fixed number of nodes.
pub struct Graph {
    matrix: Vec<Vec<i64>>,
    labels: Vec<String>,
    symmetric: bool,
    size: usize,
}

impl View for Graph {
    type V = GraphModel;

    closed spec fn view(&self) -> GraphModel {
        GraphModel {
            size: self.size as nat,
            symmetric: self.symmetric,
            weights: self.matrix@.map_values(|row: Vec<i64>| row@),
            labels: self.labels@.map_values(|s: String| s@),
        }
    }
}

impl Graph {
    /// The shape that every graph keeps between operations.
    pub open spec fn wf(&self) -> bool {
        self@.wf()
    }

    /// Creates a graph of `size` nodes with no edges. The mode `"->"` (or
    /// `"directed"`) makes it directed; any other mode makes it symmetric.
    pub fn create(size: usize, mode: &str) -> (r: Graph)
        ensures
            r.wf(),
            r@ == GraphModel::empty(size as nat, !is_directed_mode(mode@)),
    {
        let m = mode.to_owned();
        let directed = m == "->".to_owned() || m == "directed".to_owned();
        let mut matrix: Vec<Vec<i64>> = Vec::new();
        let mut i: usize = 0;
        while i < size
            invariant
                i <= size,
                matrix@.len() == i,
                forall|k: int| 0 <= k < i ==> (#[trigger] matrix@[k])@ == Seq::new(size as nat, |j: int| NO_EDGE),
            decreases size - i,
        {
            let mut row: Vec<i64> = Vec::new();
            let mut j: usize = 0;
            while j < size
                invariant
                    j <= size,
                    row@ == Seq::new(j as nat, |x: int| NO_EDGE),
                decreases size - j,
            {
                row.push(NO_EDGE);
                j = j + 1;
            }
            matrix.push(row);
            i = i + 1;
        }
        let r = Graph { matrix, labels: Vec::new(), symmetric: !directed, size };
        proof {
            reveal_strlit("->");
            reveal_strlit("directed");
            assert(r@.weights =~= GraphModel::empty(size as nat, !is_directed_mode(mode@)).weights);
            assert(r@.labels =~= Seq::<Seq<char>>::empty());
        }
        r
    }

    /// Writes one cell of the matrix.
    fn set_weight(&mut self, a: usize, b: usize, w: i64)
        requires
            old(self)@.square(),
            old(self)@.in_range(a as int),
            old(self)@.in_range(b as int),
        ensures
            final(self)@ == old(self)@.set_weight(a as int, b as int, w),
    {
        proof {
            assert(self@.weights[a as int] == self.matrix@[a as int]@);
        }
        self.matrix[a][b] = w;
        proof {
            assert(self@.weights =~= old(self)@.set_weight(a as int, b as int, w).weights);
        }
    }

    /// Writes `w` from `a` to `b`, and back where the graph is symmetric.
    fn write_edge(&mut self, a: usize, b: usize, w: i64)
        requires
            old(self).wf(),
            old(self)@.in_range(a as int),
            old(self)@.in_range(b as int),
        ensures
            final(self).wf(),
            final(self)@ == old(self)@.with_edge(a as int, b as int, w),
    {
        self.set_weight(a, b, w);
        if self.symmetric {
            self.set_weight(b, a, w);
        }
    }

    /// Clears the edge from `a` to `b` and the one back.
    fn clear_edge(&mut self, a: usize, b: usize)
        requires
            old(self).wf(),
            old(self)@.in_range(a as int),
            old(self)@.in_range(b as int),
        ensures
            final(self).wf(),
            final(self)@ == old(self)@.without_edge(a as int, b as int),
    {
        self.set_weight(a, b, NO_EDGE);
        self.set_weight(b, a, NO_EDGE);
    }

    /// The weight from `a` to `b`.
    pub(crate) fn weight(&self, a: usize, b: usize) -> (w: i64)
        requires
            self@.square(),
            self@.in_range(a as int),
            self@.in_range(b as int),
        ensures
            w == self@.weights[a as int][b as int],
    {
        proof {
            assert(self@.weights[a as int] == self.matrix@[a as int]@);
        }
        self.matrix[a][b]
    }

    pub(crate) fn size(&self) -> (n: usize)
        ensures
            n as nat == self@.size,
    {
        self.size
    }

    /// Number of present edges in row `a`.
    pub(crate) fn row_degree(&self, a: usize) -> (d: usize)
        requires
            self.wf(),
            self@.in_range(a as int),
        ensures
            d as nat == self@.degree(a as int),
    {
        let mut d: usize = 0;
        let mut j: usize = 0;
        while j < self.size
            invariant
                self.wf(),
                self@.in_range(a as int),
                j <= self.size,
                d <= j,
                d as nat == count_present(self@.weights[a as int], j as int),
            decreases self.size - j,
        {
            if self.weight(a, j) >= 0 {
                d = d + 1;
            }
            j = j + 1;
        }
        d
    }

    /// The nodes other than `a` that row `a` reaches, in increasing order.
    pub(crate) fn row_neighbors(&self, a: usize) -> (v: Vec<usize>)
        requires
            self.wf(),
            self@.in_range(a as int),
        ensures
            v@ == self@.neighbors(a as int),
    {
        let mut v: Vec<usize> = Vec::new();
        let mut j: usize = 0;
        while j < self.size
            invariant
                self.wf(),
                self@.in_range(a as int),
                j <= self.size,
                v@ == neighbor_prefix(self@.weights[a as int], a as int, j as int),
            decreases self.size - j,
        {
            if a != j && self.weight(a, j) > NO_EDGE {
                v.push(j);
            }
            j = j + 1;
        }
        v
    }

    /// Writes an edge of weight `weight` from index `a` to index `b`, and
    /// back where the graph is symmetric.
    pub fn add_edge_idx(&mut self, a: usize, b: usize, weight: i64) -> (r: Result<(), GraphError>)
        requires
            old(self).wf(),
        ensures
            final(self).wf(),
            outcome(r, final(self)@) == old(self)@.add_edge_at(a as int, b as int, weight),
            r is Err ==> final(self)@ == old(self)@,
    {
        if a >= self.size || b >= self.size {
            return Err(GraphError::IndexOutOfRange);
        }
        self.write_edge(a, b, weight);
        Ok(())
    }

    /// Clears the edge from index `a` to index `b` and the one back, in
    /// either mode.
    pub fn remove_edge_idx(&mut self, a: usize, b: usize) -> (r: Result<(), GraphError>)
        requires
            old(self).wf(),
        ensures
            final(self).wf(),
            outcome(r, final(self)@) == old(self)@.remove_edge_at(a as int, b as int),
            r is Err ==> final(self)@ == old(self)@,
    {
        if a >= self.size || b >= self.size {
            return Err(GraphError::IndexOutOfRange);
        }
        self.clear_edge(a, b);
        Ok(())
    }

    /// Number of present edges leaving index `a`.
    pub fn degree_idx(&self, a: usize) -> (r: Result<usize, GraphError>)
        requires
            self.wf(),
        ensures
            r == self@.degree_at(a as int),
    {
        if a >= self.size {
            return Err(GraphError::IndexOutOfRange);
        }
        Ok(self.row_degree(a))
    }

    /// Whether an edge leads from index `a` to index `b`.
    pub fn has_edge_idx(&self, a: usize, b: usize) -> (r: Result<bool, GraphError>)
        requires
            self.wf(),
        ensures
            r == self@.has_edge_at(a as int, b as int),
    {
        if a >= self.size || b >= self.size {
            return Err(GraphError::IndexOutOfRange);
        }
        Ok(self.weight(a, b) >= 0)
    }

    /// The indices other than `a` that `a` reaches, in increasing order.
    pub fn neighbors_idx(&self, a: usize) -> (r: Result<Vec<usize>, GraphError>)
        requires
            self.wf(),
        ensures
            match r {
                Ok(v) => self@.neighbors_at(a as int) == Ok::<Seq<usize>, GraphError>(v@),
                Err(e) => self@.neighbors_at(a as int) == Err::<Seq<usize>, GraphError>(e),
            },
    {
        if a >= self.size {
            return Err(GraphError::IndexOutOfRange);
        }
        Ok(self.row_neighbors(a))
    }

    /// The index assigned to `label`, or `None` where it has none.
    pub fn lookup(&self, label: &str) -> (r: Option<usize>)
        requires
            self.wf(),
        ensures
            match r {
                Some(i) => self@.labels.contains(label@) && i as int == self@.index_of(label@),
                None => !self@.labels.contains(label@),
            },
    {
        let key = label.to_owned();
        let mut i: usize = 0;
        while i < self.labels.len()
            invariant
                self.wf(),
                key@ == label@,
                i <= self.labels@.len(),
                forall|k: int| 0 <= k < i ==> self@.labels[k] != label@,
            decreases self.labels@.len() - i,
        {
            if self.labels[i] == key {
                proof {
                    assert(self@.labels[i as int] == label@);
                    let j = self@.index_of(label@);
                    assert(self@.labels[j] == label@);
                }
                return Some(i);
            }
            i = i + 1;
        }
        proof {
            if self@.labels.contains(label@) {
                let k = choose|k: int| 0 <= k < self@.labels.len() && self@.labels[k] == label@;
                assert(self@.labels[k] == label@);
            }
        }
        None
    }

    /// The index assigned to `label`, or 0 where it has none: an unknown
    /// label reads as whichever node holds index 0.
    pub fn index_of(&self, label: &str) -> (r: usize)
        requires
            self.wf(),
        ensures
            r as int == self@.index_of(label@),
    {
        match self.lookup(label) {
            Some(i) => i,
            None => 0,
        }
    }

    /// The label assigned to `index`, or the empty text where none is.
    pub fn label_of(&self, index: usize) -> (r: String)
        requires
            self.wf(),
        ensures
            r@ == self@.label_of(index as int),
    {
        if index < self.labels.len() {
            self.labels[index].clone()
        } else {
            String::new()
        }
    }

    /// Gives `label` the next free index unless it has one, and returns its
    /// index.
    fn register(&mut self, label: &str) -> (i: usize)
        requires
            old(self).wf(),
            old(self)@.labels.contains(label@) || old(self)@.labels.len() < old(self)@.size,
        ensures
            final(self).wf(),
            final(self)@ == old(self)@.register(label@),
            i as int == final(self)@.index_of(label@),
            final(self)@.labels.contains(label@),
    {
        match self.lookup(label) {
            Some(i) => i,
            None => {
                let i = self.labels.len();
                self.labels.push(label.to_owned());
                proof {
                    assert(self@.labels =~= old(self)@.labels.push(label@));
                    assert(self@.labels[i as int] == label@);
                    let j = self@.index_of(label@);
                    assert(self@.labels[j] == label@);
                }
                i
            },
        }
    }

    /// Gives each unknown label of `a` and `b` the next free index, then
    /// writes an edge of weight `weight` from `a` to `b`, and back where the
    /// graph is symmetric. Fails, changing nothing, where a new label would
    /// get an index outside the graph.
    pub fn add_edge(&mut self, a: &str, b: &str, weight: i64) -> (r: Result<(), GraphError>)
        requires
            old(self).wf(),
        ensures
            final(self).wf(),
            outcome(r, final(self)@) == old(self)@.add_edge_by_label(a@, b@, weight),
            r is Err ==> final(self)@ == old(self)@,
    {
        let new_a = self.lookup(a).is_none();
        let same = a.to_owned() == b.to_owned();
        let new_b = self.lookup(b).is_none() && !same;
        let n = self.labels.len();
        let extra: usize = if new_a && new_b {
            2
        } else if new_a || new_b {
            1
        } else {
            0
        };
        proof {
            let g1 = old(self)@.register(a@);
            let g2 = g1.register(b@);
            assert(g1.labels.len() == n + if new_a { 1int } else { 0int });
            if !new_b {
                assert(g1.labels.contains(b@)) by {
                    if same {
                        assert(g1.labels.contains(a@)) by {
                            if new_a {
                                assert(g1.labels[n as int] == a@);
                            }
                        }
                    } else {
                        assert(old(self)@.labels.contains(b@));
                        let k = choose|k: int| 0 <= k < old(self)@.labels.len() && old(self)@.labels[k] == b@;
                        assert(g1.labels[k] == b@);
                    }
                }
            } else {
                assert(!g1.labels.contains(b@)) by {
                    if g1.labels.contains(b@) {
                        let k = choose|k: int| 0 <= k < g1.labels.len() && g1.labels[k] == b@;
                        if k < n {
                            assert(old(self)@.labels[k] == b@);
                        }
                    }
                }
            }
            assert(g2.labels.len() == n + extra);
        }
        if extra > self.size - n {
            return Err(GraphError::IndexOutOfRange);
        }
        let ia = self.register(a);
        let ghost g1 = self@;
        proof {
            let j = g1.index_of(a@);
            assert(g1.labels[j] == a@);
        }
        let ib = self.register(b);
        proof {
            assert(self@.labels[ia as int] == a@);
            let j = self@.index_of(a@);
            assert(self@.labels[j] == a@);
            assert(j == ia);
        }
        self.write_edge(ia, ib, weight);
        Ok(())
    }

    /// Clears the edge between the indices of `a` and `b`, and the one back,
    /// in either mode.
    pub fn remove_edge(&mut self, a: &str, b: &str) -> (r: Result<(), GraphError>)
        requires
            old(self).wf(),
        ensures
            final(self).wf(),
            outcome(r, final(self)@) == old(self)@.remove_edge_by_label(a@, b@),
            r is Err ==> final(self)@ == old(self)@,
    {
        let ia = self.index_of(a);
        let ib = self.index_of(b);
        self.remove_edge_idx(ia, ib)
    }

    /// Number of present edges leaving the node of `label`.
    pub fn degree(&self, label: &str) -> (r: Result<usize, GraphError>)
        requires
            self.wf(),
        ensures
            r == self@.degree_by_label(label@),
    {
        self.degree_idx(self.index_of(label))
    }

    /// Whether an edge leads from the node of `a` to the node of `b`.
    pub fn has_edge(&self, a: &str, b: &str) -> (r: Result<bool, GraphError>)
        requires
            self.wf(),
        ensures
            r == self@.has_edge_by_label(a@, b@),
    {
        self.has_edge_idx(self.index_of(a), self.index_of(b))
    }

    /// The labels of the nodes other than the node of `label` that it
    /// reaches, in increasing index order; an index without a label gives the
    /// empty text.
    pub fn neighbors(&self, label: &str) -> (r: Result<Vec<String>, GraphError>)
        requires
            self.wf(),
        ensures
            match r {
                Ok(v) => self@.neighbors_by_label(label@) == Ok::<Seq<Seq<char>>, GraphError>(
                    v.deep_view(),
                ),
                Err(e) => self@.neighbors_by_label(label@) == Err::<Seq<Seq<char>>, GraphError>(e),
            },
    {
        let ns = match self.neighbors_idx(self.index_of(label)) {
            Ok(ns) => ns,
            Err(e) => return Err(e),
        };
        let mut out: Vec<String> = Vec::new();
        let mut k: usize = 0;
        while k < ns.len()
            invariant
                self.wf(),
                k <= ns@.len(),
                out@.len() == k,
                forall|x: int| 0 <= x < k ==> (#[trigger] out@[x])@ == self@.label_of(ns@[x] as int),
            decreases ns@.len() - k,
        {
            out.push(self.label_of(ns[k]));
            k = k + 1;
        }
        proof {
            assert(out.deep_view() =~= ns@.map_values(|j: usize| self@.label_of(j as int)));
        }
        Ok(out)
    }

    /// Among the neighbours of index `no`, the first whose edge weight is the
    /// least.
    pub fn cheapest_neighbor(&self, no: usize) -> (r: Result<usize, GraphError>)
        requires
            self.wf(),
        ensures
            match r {
                Ok(m) => self@.in_range(no as int) && self@.is_cheapest_neighbor(no as int, m),
                Err(e) => if self@.in_range(no as int) {
                    e == GraphError::NoNeighbors && self@.neighbors(no as int).len() == 0
                } else {
                    e == GraphError::IndexOutOfRange
                },
            },
    {
        if no >= self.size {
            return Err(GraphError::IndexOutOfRange);
        }
        let ns = self.row_neighbors(no);
        if ns.len() == 0 {
            return Err(GraphError::NoNeighbors);
        }
        proof {
            lemma_neighbor_prefix(self@.weights[no as int], no as int, self@.size as int);
        }
        let mut best: usize = ns[0];
        let ghost mut pos: int = 0;
        let mut k: usize = 1;
        while k < ns.len()
            invariant
                self.wf(),
                self@.in_range(no as int),
                ns@ == self@.neighbors(no as int),
                forall|x: int| 0 <= x < ns@.len() ==> self@.in_range(#[trigger] ns@[x] as int),
                1 <= k <= ns@.len(),
                0 <= pos < k,
                ns@[pos] == best,
                forall|x: int|
                    0 <= x < k ==> self@.weights[no as int][best as int]
                        <= #[trigger] self@.weights[no as int][ns@[x] as int] && (x < pos
                        ==> self@.weights[no as int][best as int]
                        < self@.weights[no as int][ns@[x] as int]),
            decreases ns@.len() - k,
        {
            assert(self@.in_range(ns@[k as int] as int));
            if self.weight(no, ns[k]) < self.weight(no, best) {
                best = ns[k];
                proof {
                    pos = k as int;
                }
            }
            k = k + 1;
        }
        Ok(best)
    }
}

} // verus!
