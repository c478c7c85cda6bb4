//! Structural checks on a graph, driven by its index-keyed operations: a
//! reachability-based cycle check and a simplified circuit-feasibility check.
use vstd::prelude::*;
use vstd::set_lib::{lemma_int_range, lemma_len_subset, set_int_range};
use crate::graph::Graph;
use crate::model::{GraphError, GraphModel, lemma_neighbor_prefix};

verus! {

/// Node `n` waits on the work list above position `k`.
pub open spec fn pending(stack: Seq<usize>, k: int, n: usize) -> bool {
    exists|k2: int| k < k2 < stack.len() && stack[k2] == n
}

/// Where the node at position `k` has been visited, each of its neighbours
/// is visited too or waits above it.
pub open spec fn covered(g: GraphModel, stack: Seq<usize>, vis: Set<int>, k: int) -> bool {
    let ns = g.neighbors(stack[k] as int);
    vis.contains(stack[k] as int) ==> forall|x: int|
        0 <= x < ns.len() ==> vis.contains(#[trigger] ns[x] as int) || pending(stack, k, ns[x])
}

/// What holds of the work list `stack` and the visited set `vis` at each
/// step of the traversal.
pub open spec fn frontier_ok(g: GraphModel, stack: Seq<usize>, vis: Set<int>) -> bool {
    &&& g.wf()
    &&& vis.subset_of(set_int_range(0, g.size as int))
    &&& forall|k: int| 0 <= k < stack.len() ==> g.in_range(#[trigger] stack[k] as int)
    &&& forall|k: int| 0 <= k < stack.len() ==> #[trigger] covered(g, stack, vis, k)
}

/// The outcome of the traversal from work list `stack` and visited set
/// `vis`: pop the last node, mark it visited, and report a cycle if any of
/// its neighbours is visited; else push them all and go on. An empty work
/// list reports none.
pub open spec fn cycle_search(g: GraphModel, stack: Seq<usize>, vis: Set<int>) -> bool
    decreases g.size - vis.len(), stack.len(),
    when frontier_ok(g, stack, vis)
    via cycle_search_decreases
{
    if stack.len() == 0 {
        false
    } else {
        let x = stack.last();
        let seen = vis.insert(x as int);
        let ns = g.neighbors(x as int);
        if exists|i: int| 0 <= i < ns.len() && seen.contains(#[trigger] ns[i] as int) {
            true
        } else {
            cycle_search(g, stack.drop_last() + ns, seen)
        }
    }
}

#[via_fn]
proof fn cycle_search_decreases(g: GraphModel, stack: Seq<usize>, vis: Set<int>) {
    lemma_int_range(0, g.size as int);
    lemma_len_subset(vis, set_int_range(0, g.size as int));
    if stack.len() > 0 {
        let x = stack.last();
        let seen = vis.insert(x as int);
        let ns = g.neighbors(x as int);
        if !(exists|i: int| 0 <= i < ns.len() && seen.contains(#[trigger] ns[i] as int)) {
            if vis.contains(x as int) {
                assert(covered(g, stack, vis, stack.len() - 1));
                if ns.len() > 0 {
                    assert(seen.contains(ns[0] as int));
                }
                assert(seen =~= vis);
            } else {
                assert(g.in_range(stack[stack.len() - 1] as int));
                lemma_len_subset(seen, set_int_range(0, g.size as int));
            }
        }
    }
}

/// Number of nodes below `n` with at least one present edge.
pub open spec fn count_linked(g: GraphModel, n: int) -> nat
    decreases n,
{
    if n <= 0 {
        0
    } else {
        count_linked(g, n - 1) + if g.degree(n - 1) != 0 {
            1nat
        } else {
            0nat
        }
    }
}

proof fn lemma_count_linked_grows(g: GraphModel, m: int, n: int)
    requires
        0 <= m <= n,
    ensures
        count_linked(g, m) <= count_linked(g, n),
    decreases n - m,
{
    if m < n {
        lemma_count_linked_grows(g, m, n - 1);
    }
}

impl GraphModel {
    /// A cycle is found from `start`, and at most one node of the whole
    /// graph has any edge.
    pub open spec fn fleury_at(self, start: int) -> Result<bool, GraphError> {
        match self.has_cycle_at(start) {
            Ok(c) => Ok(c && count_linked(self, self.size as int) <= 1),
            Err(e) => Err(e),
        }
    }

    pub open spec fn has_cycle_at(self, start: int) -> Result<bool, GraphError> {
        if self.in_range(start) {
            Ok(cycle_search(self, seq![start as usize], Set::empty()))
        } else {
            Err(GraphError::IndexOutOfRange)
        }
    }
}

/// One step of the traversal that finds no visited neighbour keeps the
/// traversal's invariant.
proof fn lemma_step_keeps_frontier(g: GraphModel, stack: Seq<usize>, vis: Set<int>)
    requires
        frontier_ok(g, stack, vis),
        stack.len() > 0,
        forall|i: int|
            0 <= i < g.neighbors(stack.last() as int).len() ==> !vis.insert(stack.last() as int).contains(
                #[trigger] g.neighbors(stack.last() as int)[i] as int,
            ),
    ensures
        frontier_ok(
            g,
            stack.drop_last() + g.neighbors(stack.last() as int),
            vis.insert(stack.last() as int),
        ),
{
    let x = stack.last();
    let r = stack.drop_last();
    let ns = g.neighbors(x as int);
    let s2 = r + ns;
    let seen = vis.insert(x as int);
    assert(g.in_range(stack[stack.len() - 1] as int));
    lemma_neighbor_prefix(g.weights[x as int], x as int, g.size as int);
    assert forall|k: int| 0 <= k < s2.len() implies g.in_range(#[trigger] s2[k] as int) by {
        if k < r.len() {
            assert(s2[k] == stack[k]);
        } else {
            assert(s2[k] == ns[k - r.len()]);
        }
    }
    assert forall|k: int| 0 <= k < s2.len() implies #[trigger] covered(g, s2, seen, k) by {
        if k >= r.len() {
            assert(s2[k] == ns[k - r.len()]);
            assert(!seen.contains(ns[k - r.len()] as int));
        } else {
            assert(s2[k] == stack[k]);
            let nk = g.neighbors(stack[k] as int);
            if seen.contains(stack[k] as int) {
                assert forall|y: int| 0 <= y < nk.len() implies seen.contains(
                    #[trigger] nk[y] as int,
                ) || pending(s2, k, nk[y]) by {
                    if vis.contains(stack[k] as int) {
                        assert(covered(g, stack, vis, k));
                        if !vis.contains(nk[y] as int) {
                            let k2 = choose|k2: int| k < k2 < stack.len() && stack[k2] == nk[y];
                            if k2 < r.len() {
                                assert(s2[k2] == nk[y]);
                            }
                        }
                    } else {
                        assert(stack[k] == x);
                        assert(s2[r.len() + y] == nk[y]);
                    }
                }
            }
        }
    }
}

impl Graph {
    /// Walks from index `start` with a work list taken last in, first out,
    /// and reports a cycle as soon as a node has a neighbour that was
    /// already visited. Two paths to one node count as a cycle.
    pub fn has_cycle(&self, start: usize) -> (r: Result<bool, GraphError>)
        requires
            self.wf(),
        ensures
            r == self@.has_cycle_at(start as int),
    {
        let size = self.size();
        if start >= size {
            return Err(GraphError::IndexOutOfRange);
        }
        let mut seen: Vec<bool> = Vec::new();
        let mut i: usize = 0;
        while i < size
            invariant
                i <= size,
                seen@ == Seq::new(i as nat, |k: int| false),
            decreases size - i,
        {
            seen.push(false);
            i = i + 1;
        }
        let mut stack: Vec<usize> = Vec::new();
        stack.push(start);
        let ghost g = self@;
        let ghost mut vis: Set<int> = Set::empty();
        proof {
            assert(stack@ =~= seq![start]);
            assert(covered(g, stack@, vis, 0));
            lemma_int_range(0, size as int);
            assert(frontier_ok(g, seq![start], Set::empty()));
        }
        while stack.len() > 0
            invariant
                self.wf(),
                g == self@,
                size as nat == g.size,
                seen@.len() == size,
                forall|k: int| 0 <= k < size ==> seen@[k] == vis.contains(k),
                frontier_ok(g, stack@, vis),
                frontier_ok(g, seq![start], Set::empty()),
                cycle_search(g, stack@, vis) == cycle_search(g, seq![start], Set::empty()),
            decreases g.size - vis.len(), stack@.len(),
        {
            let ghost stack0 = stack@;
            let ghost vis0 = vis;
            proof {
                lemma_int_range(0, size as int);
                lemma_len_subset(vis, set_int_range(0, size as int));
            }
            let x = match stack.pop() {
                Some(x) => x,
                None => return Ok(false),
            };
            assert(g.in_range(stack0[stack0.len() - 1] as int));
            seen.set(x, true);
            proof {
                vis = vis.insert(x as int);
            }
            let ns = self.row_neighbors(x);
            proof {
                lemma_neighbor_prefix(g.weights[x as int], x as int, size as int);
            }
            let mut k: usize = 0;
            while k < ns.len()
                invariant
                    self.wf(),
                    g == self@,
                    size as nat == g.size,
                    ns@ == g.neighbors(x as int),
                    stack0.len() > 0,
                    x == stack0.last(),
                    vis == vis0.insert(x as int),
                    frontier_ok(g, stack0, vis0),
                    frontier_ok(g, seq![start], Set::empty()),
                    cycle_search(g, stack0, vis0) == cycle_search(g, seq![start], Set::empty()),
                    seen@.len() == size,
                    forall|j: int| 0 <= j < size ==> seen@[j] == vis.contains(j),
                    forall|j: int| 0 <= j < ns@.len() ==> g.in_range(#[trigger] ns@[j] as int),
                    k <= ns@.len(),
                    stack@ == stack0.drop_last() + ns@.subrange(0, k as int),
                    forall|j: int| 0 <= j < k ==> !vis.contains(#[trigger] ns@[j] as int),
                decreases ns@.len() - k,
            {
                let n = ns[k];
                assert(g.in_range(ns@[k as int] as int));
                if seen[n] {
                    proof {
                        assert(vis.contains(ns@[k as int] as int));
                        assert(cycle_search(g, stack0, vis0));
                    }
                    return Ok(true);
                }
                stack.push(n);
                proof {
                    assert(stack@ =~= stack0.drop_last() + ns@.subrange(0, k + 1));
                }
                k = k + 1;
            }
            proof {
                assert(ns@.subrange(0, ns@.len() as int) =~= ns@);
                lemma_step_keeps_frontier(g, stack0, vis0);
                assert(cycle_search(g, stack0, vis0) == cycle_search(g, stack@, vis));
                if vis0.contains(x as int) {
                    assert(covered(g, stack0, vis0, stack0.len() - 1));
                    if ns@.len() > 0 {
                        assert(!vis.contains(ns@[0] as int));
                    }
                    assert(vis =~= vis0);
                } else {
                    lemma_len_subset(vis, set_int_range(0, size as int));
                }
            }
        }
        Ok(false)
    }

    /// Reports whether a cycle is found from index `start` and at most one
    /// node of the graph has any edge. This is a necessary-condition check,
    /// not the full test for an Eulerian circuit.
    pub fn fleury_feasible(&self, start: usize) -> (r: Result<bool, GraphError>)
        requires
            self.wf(),
        ensures
            r == self@.fleury_at(start as int),
    {
        match self.has_cycle(start) {
            Ok(true) => {},
            other => return other,
        }
        let size = self.size();
        let mut counter: u32 = 0;
        let mut node: usize = 0;
        while node < size
            invariant
                self.wf(),
                size as nat == self@.size,
                node <= size,
                counter <= 1,
                self@.has_cycle_at(start as int) == Ok::<bool, GraphError>(true),
                counter as nat == count_linked(self@, node as int),
            decreases size - node,
        {
            if self.row_degree(node) != 0 {
                counter = counter + 1;
            }
            if counter > 1 {
                proof {
                    lemma_count_linked_grows(self@, node + 1, size as int);
                }
                return Ok(false);
            }
            node = node + 1;
        }
        Ok(true)
    }
}

} // verus!
