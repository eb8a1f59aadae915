//! The topology graph: a bidirectional adjacency store mapping each node to
//! the wires it participates in.
//!
//! Nodes and wires are addressed by small integer indices allocated here.
//! The central invariant is symmetry: a wire between `a` and `b` appears in
//! both endpoints' adjacency lists, under the same wire identifier.

use vstd::prelude::*;

use crate::NetError;

verus! {

/// Bidirectional adjacency: node id -> list of (wire id, neighbor node id).
pub struct Topology {
    adj: Vec<Vec<(usize, usize)>>,
    wire_count: usize,
}

impl Topology {
    /// The adjacency lists, node by node.
    pub closed spec fn adj_map(self) -> Seq<Seq<(usize, usize)>> {
        self.adj@.map_values(|row: Vec<(usize, usize)>| row@)
    }

    /// How many wire identifiers have been allocated.
    pub closed spec fn wires(self) -> int {
        self.wire_count as int
    }

    /// How many node identifiers have been allocated.
    pub open spec fn nodes(self) -> int {
        self.adj_map().len() as int
    }

    /// Whether some wire already runs from `a` to `b`.
    pub open spec fn adjacent_spec(self, a: int, b: int) -> bool {
        exists|k: int|
            0 <= k < self.adj_map()[a].len() && (#[trigger] self.adj_map()[a][k]).1 == b
    }

    /// Every adjacency entry points at an allocated wire and a distinct,
    /// allocated neighbor, and has its mirror entry at that neighbor.
    pub open spec fn wf(self) -> bool {
        forall|n: int, k: int|
            0 <= n < self.adj_map().len() && 0 <= k < self.adj_map()[n].len() ==> {
                let e = #[trigger] self.adj_map()[n][k];
                &&& (e.0 as int) < self.wires()
                &&& (e.1 as int) < self.adj_map().len()
                &&& (e.1 as int) != n
                &&& self.adj_map()[e.1 as int].contains((e.0, n as usize))
            }
    }

    /// An empty network: no nodes, no wires.
    pub fn new() -> (r: Topology)
        ensures
            r.wf(),
            r.nodes() == 0,
            r.wires() == 0,
    {
        Topology { adj: Vec::new(), wire_count: 0 }
    }

    /// Allocate a fresh node with no incident wires; returns its id.
    pub fn add_node(&mut self) -> (id: usize)
        requires
            old(self).wf(),
        ensures
            final(self).wf(),
            id as int == old(self).nodes(),
            final(self).nodes() == old(self).nodes() + 1,
            final(self).wires() == old(self).wires(),
            final(self).adj_map() =~= old(self).adj_map().push(Seq::empty()),
    {
        let id = self.adj.len();
        self.adj.push(Vec::new());
        proof {
            assert(self.adj_map() =~= old(self).adj_map().push(Seq::<(usize, usize)>::empty()));
            let m = self.adj_map();
            let prev = old(self).adj_map();
            assert forall|n: int, k: int|
                0 <= n < m.len() && 0 <= k < m[n].len() implies {
                let e = #[trigger] m[n][k];
                &&& (e.0 as int) < self.wires()
                &&& (e.1 as int) < m.len()
                &&& (e.1 as int) != n
                &&& m[e.1 as int].contains((e.0, n as usize))
            } by {
                assert(n < prev.len());
                let e = m[n][k];
                assert(prev[e.1 as int].contains((e.0, n as usize)));
            }
        }
        id
    }

    /// Whether some wire already runs from `a` to `b`.
    pub fn adjacent(&self, a: usize, b: usize) -> (r: bool)
        requires
            a < self.nodes(),
        ensures
            r == self.adjacent_spec(a as int, b as int),
    {
        let row = &self.adj[a];
        let ghost rowspec = self.adj_map()[a as int];
        proof {
            assert(row@ == rowspec);
        }
        let mut k: usize = 0;
        while k < row.len()
            invariant
                0 <= k <= rowspec.len(),
                row@ == rowspec,
                a < self.adj_map().len(),
                rowspec == self.adj_map()[a as int],
                forall|j: int| 0 <= j < k ==> (#[trigger] rowspec[j]).1 != b,
            decreases rowspec.len() - k,
        {
            if row[k].1 == b {
                proof {
                    assert((self.adj_map()[a as int][k as int]).1 == b);
                }
                return true;
            }
            k += 1;
        }
        false
    }

    /// Wire a fresh connection between two distinct, existing, not yet
    /// connected nodes. On success, the new wire id is recorded in both
    /// endpoints' adjacency lists, each naming the other as neighbor.
    pub fn connect(&mut self, a: usize, b: usize) -> (r: Result<usize, NetError>)
        requires
            old(self).wf(),
            old(self).wires() < usize::MAX,
        ensures
            final(self).wf(),
            final(self).nodes() == old(self).nodes(),
            r is Ok <==> (a < old(self).nodes() && b < old(self).nodes() && a != b
                && !old(self).adjacent_spec(a as int, b as int)),
            r is Err ==> *final(self) == *old(self),
            r == Err::<usize, NetError>(NetError::UnknownNode) <==> (a >= old(self).nodes()
                || b >= old(self).nodes()),
            r == Err::<usize, NetError>(NetError::InvalidTopology) <==> (a < old(self).nodes()
                && b < old(self).nodes() && (a == b || old(self).adjacent_spec(
                a as int,
                b as int,
            ))),
            r matches Ok(w) ==> {
                &&& w as int == old(self).wires()
                &&& final(self).wires() == old(self).wires() + 1
                &&& final(self).adj_map() =~= old(self).adj_map().update(
                    a as int,
                    old(self).adj_map()[a as int].push((w, b)),
                ).update(b as int, old(self).adj_map()[b as int].push((w, a)))
                &&& final(self).adj_map()[a as int].contains((w, b))
                &&& final(self).adj_map()[b as int].contains((w, a))
            },
    {
        if a >= self.adj.len() || b >= self.adj.len() {
            return Err(NetError::UnknownNode);
        }
        if a == b || self.adjacent(a, b) {
            return Err(NetError::InvalidTopology);
        }
        let w = self.wire_count;
        self.adj[a].push((w, b));
        self.adj[b].push((w, a));
        self.wire_count = w + 1;
        proof {
            let prev = old(self).adj_map();
            let m = self.adj_map();
            assert(m =~= prev.update(a as int, prev[a as int].push((w, b))).update(
                b as int,
                prev[b as int].push((w, a)),
            ));
            assert(m[a as int] == prev[a as int].push((w, b)));
            assert(m[a as int][prev[a as int].len() as int] == (w, b));
            assert(m[a as int].contains((w, b)));
            assert(m[b as int][prev[b as int].len() as int] == (w, a));
            assert(m[b as int].contains((w, a)));
            assert forall|n: int, k: int|
                0 <= n < m.len() && 0 <= k < m[n].len() implies {
                let e = #[trigger] m[n][k];
                &&& (e.0 as int) < self.wires()
                &&& (e.1 as int) < m.len()
                &&& (e.1 as int) != n
                &&& m[e.1 as int].contains((e.0, n as usize))
            } by {
                let e = m[n][k];
                if (n == a && k == prev[a as int].len()) {
                    assert(e == (w, b));
                } else if (n == b && k == prev[b as int].len()) {
                    assert(e == (w, a));
                } else {
                    assert(e == prev[n][k]);
                    assert(prev[e.1 as int].contains((e.0, n as usize)));
                    let j = choose|j: int|
                        0 <= j < prev[e.1 as int].len() && prev[e.1 as int][j] == (
                        e.0,
                        n as usize,
                        );
                    assert(m[e.1 as int][j] == (e.0, n as usize));
                    assert(m[e.1 as int].contains((e.0, n as usize)));
                }
            }
        }
        Ok(w)
    }

    /// The adjacency list of `node`: every (wire id, neighbor) pair it
    /// participates in. A node that was never connected is unknown.
    pub fn neighbors(&self, node: usize) -> (r: Result<&Vec<(usize, usize)>, NetError>)
        ensures
            r is Ok <==> (node < self.nodes() && self.adj_map()[node as int].len() > 0),
            r matches Ok(v) ==> v@ == self.adj_map()[node as int],
            r is Err ==> r == Err::<&Vec<(usize, usize)>, NetError>(NetError::UnknownNode),
    {
        if node >= self.adj.len() {
            return Err(NetError::UnknownNode);
        }
        let row = &self.adj[node];
        if row.len() == 0 {
            return Err(NetError::UnknownNode);
        }
        Ok(row)
    }
}

} // verus!
