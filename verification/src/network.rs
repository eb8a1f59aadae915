//! The network: node and wire arenas tied together by the topology graph,
//! with cut management and the infection move validator.

use vstd::prelude::*;

use crate::NetError;
use crate::cutset::CutSet;
use crate::graph::Topology;
use crate::server::{Node, Server, ServerState};
use crate::tessellate::{
    breaks_set, color_spec, indices_ok, indices_spec, partition_spec, polys_view, ribbon_breaks,
    ribbon_verts, tessellate, Tessellation,
};
use crate::wire::{cuts_after, lemma_cuts_after_push, UpdateWire, Wire, WireKind, WireOperation};

verus! {

/// The whole mutable state of the core: nodes, wires and their adjacency.
///
/// Node ids index `nodes`, wire ids index `wires`; both are allocated once
/// during setup and never removed.
pub struct Network {
    pub topology: Topology,
    pub nodes: Vec<Node>,
    pub wires: Vec<Wire>,
}

impl Network {
    /// Arenas and graph agree on the id spaces, every wire is well formed
    /// with terminals inside the node arena, and server names are unique.
    pub open spec fn wf(self) -> bool {
        &&& self.topology.wf()
        &&& self.topology.nodes() == self.nodes@.len()
        &&& self.topology.wires() == self.wires@.len()
        &&& forall|w: int|
            0 <= w < self.wires@.len() ==> {
                &&& (#[trigger] self.wires@[w]).wf()
                &&& self.wires@[w].terminals.0 < self.nodes@.len()
                &&& self.wires@[w].terminals.1 < self.nodes@.len()
            }
        &&& forall|i: int, j: int|
            #![trigger self.nodes@[i], self.nodes@[j]]
            0 <= i < j < self.nodes@.len() && self.nodes@[i].is_server()
                && self.nodes@[j].is_server() ==> self.nodes@[i].name_spec()
                != self.nodes@[j].name_spec()
    }

    /// Node `n` is a server carrying this exact name.
    pub open spec fn is_server_named(self, n: int, name: Seq<char>) -> bool {
        &&& 0 <= n < self.nodes@.len()
        &&& self.nodes@[n].is_server()
        &&& self.nodes@[n].name_spec() == name
    }

    /// Node `i` is the one and only infected node.
    pub open spec fn is_unique_infected(self, i: int) -> bool {
        &&& 0 <= i < self.nodes@.len()
        &&& self.nodes@[i].is_infected()
        &&& forall|j: int|
            0 <= j < self.nodes@.len() && j != i ==> !(#[trigger] self.nodes@[j]).is_infected()
    }

    /// The unique infected node, where one exists.
    pub open spec fn infected_node(self) -> int {
        choose|i: int| self.is_unique_infected(i)
    }

    /// The server carrying `name`, where one exists.
    pub open spec fn server_named(self, name: Seq<char>) -> int {
        choose|n: int| self.is_server_named(n, name)
    }

    /// The `k`-th neighbor of `inf` is a corrupted server named `target`.
    pub open spec fn neighbor_matches(self, inf: int, k: int, target: Seq<char>) -> bool {
        let m = self.topology.adj_map()[inf][k].1 as int;
        &&& self.nodes@[m].is_server()
        &&& self.nodes@[m].name_spec() == target
        &&& self.nodes@[m].in_state(ServerState::Corrupted)
    }

    /// A move of the infection token from `inf` to the server named `target`
    /// is legal: some wire connects them and the target is corrupted.
    pub open spec fn move_legal(self, inf: int, target: Seq<char>) -> bool {
        exists|k: int|
            0 <= k < self.topology.adj_map()[inf].len() && #[trigger] self.neighbor_matches(
                inf,
                k,
                target,
            )
    }

    /// An empty network.
    pub fn new() -> (r: Network)
        ensures
            r.wf(),
            r.nodes@.len() == 0,
            r.wires@.len() == 0,
    {
        Network { topology: Topology::new(), nodes: Vec::new(), wires: Vec::new() }
    }

    /// The server carrying `name`, if any.
    pub fn find_server(&self, name: &String) -> (r: Option<usize>)
        ensures
            match r {
                Some(i) => self.is_server_named(i as int, name@),
                None => forall|n: int| !self.is_server_named(n, name@),
            },
    {
        let mut i: usize = 0;
        while i < self.nodes.len()
            invariant
                0 <= i <= self.nodes@.len(),
                forall|n: int| 0 <= n < i ==> !self.is_server_named(n, name@),
            decreases self.nodes@.len() - i,
        {
            match &self.nodes[i] {
                Node::Server(srv) => {
                    if srv.name == *name {
                        return Some(i);
                    }
                },
                Node::Generator => {},
            }
            i += 1;
        }
        None
    }

    /// Add a server node in the given initial state; returns its id.
    /// A name already in use is rejected, keeping server names unique.
    pub fn add_server(&mut self, name: String, state: ServerState) -> (r: Result<usize, NetError>)
        requires
            old(self).wf(),
        ensures
            final(self).wf(),
            r is Ok <==> !(exists|n: int| old(self).is_server_named(n, name@)),
            r is Err ==> *final(self) == *old(self) && r == Err::<usize, NetError>(
                NetError::InvalidTopology,
            ),
            r matches Ok(id) ==> {
                &&& id as int == old(self).nodes@.len()
                &&& final(self).nodes@ =~= old(self).nodes@.push(
                    Node::Server(Server { name, state }),
                )
                &&& final(self).wires@ == old(self).wires@
                &&& final(self).topology.wires() == old(self).topology.wires()
            },
    {
        match self.find_server(&name) {
            Some(_) => Err(NetError::InvalidTopology),
            None => {
                let id = self.topology.add_node();
                self.nodes.push(Node::Server(Server { name, state }));
                proof {
                    let prev = old(self).nodes@;
                    let cur = self.nodes@;
                    assert forall|i: int, j: int|
                        #![trigger cur[i], cur[j]]
                        0 <= i < j < cur.len() && cur[i].is_server()
                            && cur[j].is_server() implies cur[i].name_spec()
                        != cur[j].name_spec() by {
                        if j == prev.len() {
                            assert(cur[i] == prev[i]);
                            assert(!old(self).is_server_named(i, cur[j].name_spec()));
                        } else {
                            assert(cur[i] == prev[i] && cur[j] == prev[j]);
                        }
                    }
                }
                Ok(id)
            },
        }
    }

    /// Add a generator node; returns its id.
    pub fn add_generator(&mut self) -> (id: usize)
        requires
            old(self).wf(),
        ensures
            final(self).wf(),
            id as int == old(self).nodes@.len(),
            final(self).nodes@ =~= old(self).nodes@.push(Node::Generator),
            final(self).wires@ == old(self).wires@,
    {
        let id = self.topology.add_node();
        self.nodes.push(Node::Generator);
        id
    }

    /// Wire two distinct existing nodes together; returns the new wire id,
    /// recorded in both endpoints' adjacency lists. The new wire starts
    /// fully joined (empty cut set).
    pub fn connect(&mut self, a: usize, b: usize, kind: WireKind, segments: usize) -> (r: Result<
        usize,
        NetError,
    >)
        requires
            old(self).wf(),
            segments >= 1,
            old(self).wires@.len() < usize::MAX,
        ensures
            final(self).wf(),
            final(self).nodes@ == old(self).nodes@,
            r is Ok <==> (a < old(self).nodes@.len() && b < old(self).nodes@.len() && a != b
                && !old(self).topology.adjacent_spec(a as int, b as int)),
            r is Err ==> *final(self) == *old(self),
            r == Err::<usize, NetError>(NetError::UnknownNode) <==> (a >= old(self).nodes@.len()
                || b >= old(self).nodes@.len()),
            r == Err::<usize, NetError>(NetError::InvalidTopology) <==> (a < old(
                self,
            ).nodes@.len() && b < old(self).nodes@.len() && (a == b
                || old(self).topology.adjacent_spec(a as int, b as int))),
            r matches Ok(w) ==> {
                &&& w as int == old(self).wires@.len()
                &&& final(self).wires@.len() == old(self).wires@.len() + 1
                &&& forall|v: int|
                    0 <= v < old(self).wires@.len() ==> final(self).wires@[v] == old(
                        self,
                    ).wires@[v]
                &&& final(self).wires@[w as int].terminals == (a, b)
                &&& final(self).wires@[w as int].kind == kind
                &&& final(self).wires@[w as int].segments == segments
                &&& final(self).wires@[w as int].cuts@ =~= Set::<int>::empty()
                &&& final(self).topology.adj_map()[a as int].contains((w, b))
                &&& final(self).topology.adj_map()[b as int].contains((w, a))
            },
    {
        match self.topology.connect(a, b) {
            Ok(w) => {
                self.wires.push(Wire { terminals: (a, b), kind, segments, cuts: CutSet::new() });
                Ok(w)
            },
            Err(e) => Err(e),
        }
    }

    /// The adjacency list of `node`. A node never connected is unknown.
    pub fn neighbors(&self, node: usize) -> (r: Result<&Vec<(usize, usize)>, NetError>)
        ensures
            r is Ok <==> (node < self.topology.nodes() && self.topology.adj_map()[node as int].len()
                > 0),
            r matches Ok(v) ==> v@ == self.topology.adj_map()[node as int],
            r is Err ==> r == Err::<&Vec<(usize, usize)>, NetError>(NetError::UnknownNode),
    {
        self.topology.neighbors(node)
    }

    /// Apply one cut/join request to a wire's cut set. Cutting a position
    /// already cut and joining a position not cut are no-ops.
    pub fn apply_cut_operation(&mut self, wire: usize, operation: WireOperation, pos: usize) -> (r:
        Result<(), NetError>)
        requires
            old(self).wf(),
        ensures
            final(self).wf(),
            r is Ok <==> wire < old(self).wires@.len(),
            r is Err ==> *final(self) == *old(self) && r == Err::<(), NetError>(
                NetError::UnknownWire,
            ),
            r is Ok ==> {
                &&& final(self).nodes@ == old(self).nodes@
                &&& final(self).topology == old(self).topology
                &&& final(self).wires@.len() == old(self).wires@.len()
                &&& forall|v: int|
                    0 <= v < old(self).wires@.len() && v != wire ==> final(self).wires@[v] == old(
                        self,
                    ).wires@[v]
                &&& final(self).wires@[wire as int].terminals == old(
                    self,
                ).wires@[wire as int].terminals
                &&& final(self).wires@[wire as int].kind == old(self).wires@[wire as int].kind
                &&& final(self).wires@[wire as int].segments == old(
                    self,
                ).wires@[wire as int].segments
                &&& (operation == WireOperation::Cut ==> final(self).wires@[wire as int].cuts@ =~= old(
                    self,
                ).wires@[wire as int].cuts@.insert(pos as int))
                &&& (operation == WireOperation::Join ==> final(self).wires@[wire as int].cuts@ =~= old(
                    self,
                ).wires@[wire as int].cuts@.remove(pos as int))
            },
    {
        if wire >= self.wires.len() {
            return Err(NetError::UnknownWire);
        }
        let wref = &mut self.wires[wire];
        match operation {
            WireOperation::Cut => wref.cuts.cut(pos),
            WireOperation::Join => wref.cuts.join(pos),
        }
        Ok(())
    }

    /// Drain a queue of cut/join requests, applying them in arrival order.
    /// A request against an unknown wire id is skipped; the others land on
    /// their wire as one cut-set edit each, later requests overriding
    /// earlier ones at the same position.
    pub fn apply_wire_updates(&mut self, events: &Vec<UpdateWire>)
        requires
            old(self).wf(),
        ensures
            final(self).wf(),
            final(self).nodes@ == old(self).nodes@,
            final(self).topology == old(self).topology,
            final(self).wires@.len() == old(self).wires@.len(),
            forall|w: int|
                0 <= w < old(self).wires@.len() ==> {
                    &&& (#[trigger] final(self).wires@[w]).terminals == old(
                        self,
                    ).wires@[w].terminals
                    &&& final(self).wires@[w].kind == old(self).wires@[w].kind
                    &&& final(self).wires@[w].segments == old(self).wires@[w].segments
                    &&& final(self).wires@[w].cuts@ == cuts_after(
                        old(self).wires@[w].cuts@,
                        events@,
                        w,
                    )
                },
    {
        let mut i: usize = 0;
        while i < events.len()
            invariant
                0 <= i <= events@.len(),
                self.wf(),
                self.nodes@ == old(self).nodes@,
                self.topology == old(self).topology,
                self.wires@.len() == old(self).wires@.len(),
                forall|w: int|
                    0 <= w < old(self).wires@.len() ==> {
                        &&& (#[trigger] self.wires@[w]).terminals == old(self).wires@[w].terminals
                        &&& self.wires@[w].kind == old(self).wires@[w].kind
                        &&& self.wires@[w].segments == old(self).wires@[w].segments
                        &&& self.wires@[w].cuts@ == cuts_after(
                            old(self).wires@[w].cuts@,
                            events@.take(i as int),
                            w,
                        )
                    },
            decreases events@.len() - i,
        {
            let ev = events[i];
            let ghost pre = self.wires@;
            let _ = self.apply_cut_operation(ev.wire, ev.operation, ev.pos);
            proof {
                assert forall|w: int| 0 <= w < old(self).wires@.len() implies (
                #[trigger] self.wires@[w]).cuts@ == cuts_after(
                    old(self).wires@[w].cuts@,
                    events@.take(i + 1),
                    w,
                ) by {
                    lemma_cuts_after_push(
                        old(self).wires@[w].cuts@,
                        events@.take(i as int),
                        ev,
                        w,
                    );
                    assert(events@.take(i + 1) =~= events@.take(i as int).push(ev));
                    if ev.wire as int == w && (ev.wire as int) < pre.len() {
                        assert(pre[w].cuts@ == cuts_after(
                            old(self).wires@[w].cuts@,
                            events@.take(i as int),
                            w,
                        ));
                    } else {
                        assert(self.wires@[w] == pre[w]);
                    }
                }
            }
            i += 1;
        }
        proof {
            assert(events@.take(events@.len() as int) =~= events@);
        }
    }

    /// Wire `w` is a power line: one of its terminals is a generator.
    pub open spec fn wire_powered(self, w: int) -> bool {
        ||| self.nodes@[self.wires@[w].terminals.0 as int].is_generator()
        ||| self.nodes@[self.wires@[w].terminals.1 as int].is_generator()
    }

    /// Rebuild the mesh skeleton of one wire. The caller reports whether it
    /// could resolve each terminal's position; an unresolved terminal aborts
    /// this wire's rebuild only.
    pub fn tessellate_wire(&self, wire: usize, terminal_resolved: (bool, bool)) -> (r: Result<
        Tessellation,
        NetError,
    >)
        requires
            self.wf(),
        ensures
            r is Ok <==> (wire < self.wires@.len() && terminal_resolved.0 && terminal_resolved.1),
            r == Err::<Tessellation, NetError>(NetError::UnknownWire) <==> wire
                >= self.wires@.len(),
            r == Err::<Tessellation, NetError>(NetError::DanglingTerminal) <==> (wire
                < self.wires@.len() && !(terminal_resolved.0 && terminal_resolved.1)),
            r matches Ok(t) ==> {
                let w = self.wires@[wire as int];
                &&& polys_view(t.polylines@) == partition_spec(w.segments as nat, w.cuts@)
                &&& t.vertices@ == ribbon_verts(partition_spec(w.segments as nat, w.cuts@))
                &&& t.indices@ == indices_spec(
                    t.vertices@.len() as int,
                    breaks_set(ribbon_breaks(partition_spec(w.segments as nat, w.cuts@))),
                    0,
                )
                &&& t.color == color_spec(w.cuts@, self.wire_powered(wire as int))
                &&& indices_ok(t.vertices@, t.indices@)
                &&& forall|j: int|
                    0 <= j < t.vertices@.len() ==> (#[trigger] t.vertices@[j]).sample < w.segments
                        && !w.cuts@.contains(t.vertices@[j].sample as int)
            },
    {
        if wire >= self.wires.len() {
            return Err(NetError::UnknownWire);
        }
        if !(terminal_resolved.0 && terminal_resolved.1) {
            return Err(NetError::DanglingTerminal);
        }
        let w = &self.wires[wire];
        let powered = matches!(self.nodes[w.terminals.0], Node::Generator) || matches!(
            self.nodes[w.terminals.1],
            Node::Generator,
        );
        Ok(tessellate(w.segments, &w.cuts, powered))
    }

    /// Locate the unique infected node. None or several infected nodes is
    /// an invariant violation, reported as an error, not recovered from.
    pub fn find_infected(&self) -> (r: Result<usize, NetError>)
        ensures
            r matches Ok(i) ==> self.is_unique_infected(i as int),
            r is Ok <==> exists|i: int| self.is_unique_infected(i),
            r == Err::<usize, NetError>(NetError::NoInfectedNode) <==> forall|n: int|
                0 <= n < self.nodes@.len() ==> !(#[trigger] self.nodes@[n]).is_infected(),
            r == Err::<usize, NetError>(NetError::MultipleInfectedNodes) <==> exists|i: int, j: int|
                0 <= i < j < self.nodes@.len() && (#[trigger] self.nodes@[i]).is_infected() && (
                #[trigger] self.nodes@[j]).is_infected(),
    {
        let mut found: Option<usize> = None;
        let mut n: usize = 0;
        while n < self.nodes.len()
            invariant
                0 <= n <= self.nodes@.len(),
                match found {
                    Some(i) => 0 <= i < n && self.nodes@[i as int].is_infected() && forall|j: int|
                        0 <= j < n && j != i ==> !(#[trigger] self.nodes@[j]).is_infected(),
                    None => forall|j: int|
                        0 <= j < n ==> !(#[trigger] self.nodes@[j]).is_infected(),
                },
            decreases self.nodes@.len() - n,
        {
            let infected_here = match &self.nodes[n] {
                Node::Server(srv) => matches!(srv.state, ServerState::Infected),
                Node::Generator => false,
            };
            if infected_here {
                match found {
                    Some(i) => {
                        proof {
                            assert(self.nodes@[i as int].is_infected());
                            assert(self.nodes@[n as int].is_infected());
                        }
                        return Err(NetError::MultipleInfectedNodes);
                    },
                    None => {
                        found = Some(n);
                    },
                }
            }
            n += 1;
        }
        match found {
            Some(i) => {
                proof {
                    assert(self.is_unique_infected(i as int));
                }
                Ok(i)
            },
            None => Err(NetError::NoInfectedNode),
        }
    }

    /// Decide whether moving the infection token to the server named
    /// `target` is legal: the target must be graph-adjacent to the unique
    /// infected node and currently corrupted.
    pub fn validate_move(&self, target: &str) -> (r: Result<bool, NetError>)
        requires
            self.wf(),
        ensures
            r matches Ok(v) ==> exists|i: int|
                self.is_unique_infected(i) && v == self.move_legal(i, target@),
            r is Ok <==> exists|i: int| self.is_unique_infected(i),
            r == Err::<bool, NetError>(NetError::NoInfectedNode) <==> forall|n: int|
                0 <= n < self.nodes@.len() ==> !(#[trigger] self.nodes@[n]).is_infected(),
            r == Err::<bool, NetError>(NetError::MultipleInfectedNodes) <==> exists|i: int, j: int|
                0 <= i < j < self.nodes@.len() && (#[trigger] self.nodes@[i]).is_infected() && (
                #[trigger] self.nodes@[j]).is_infected(),
    {
        let inf = match self.find_infected() {
            Ok(i) => i,
            Err(e) => {
                return Err(e);
            },
        };
        let tname = target.to_owned();
        let row = match self.topology.neighbors(inf) {
            Ok(v) => v,
            Err(_) => {
                proof {
                    assert(forall|k: int|
                        !(0 <= k < self.topology.adj_map()[inf as int].len()
                            && self.neighbor_matches(inf as int, k, target@)));
                }
                return Ok(false);
            },
        };
        let mut k: usize = 0;
        while k < row.len()
            invariant
                0 <= k <= row@.len(),
                self.wf(),
                self.is_unique_infected(inf as int),
                inf < self.topology.nodes(),
                row@ == self.topology.adj_map()[inf as int],
                tname@ == target@,
                forall|j: int| 0 <= j < k ==> !self.neighbor_matches(inf as int, j, target@),
            decreases row@.len() - k,
        {
            let m = row[k].1;
            proof {
                assert(self.topology.adj_map()[inf as int][k as int] == row@[k as int]);
                assert(m < self.nodes@.len());
            }
            let matches_target = match &self.nodes[m] {
                Node::Server(srv) => srv.name == tname && matches!(
                    srv.state,
                    ServerState::Corrupted,
                ),
                Node::Generator => false,
            };
            if matches_target {
                proof {
                    assert(self.neighbor_matches(inf as int, k as int, target@));
                }
                return Ok(true);
            }
            k += 1;
        }
        Ok(false)
    }

    /// Replace the state of the server at node `n`, keeping its name.
    fn set_state(&mut self, n: usize, st: ServerState)
        requires
            old(self).wf(),
            n < old(self).nodes@.len(),
            old(self).nodes@[n as int].is_server(),
        ensures
            final(self).wf(),
            final(self).topology == old(self).topology,
            final(self).wires == old(self).wires,
            final(self).nodes@.len() == old(self).nodes@.len(),
            final(self).nodes@[n as int].is_server(),
            final(self).nodes@[n as int].name_spec() == old(self).nodes@[n as int].name_spec(),
            final(self).nodes@[n as int].in_state(st),
            forall|j: int|
                0 <= j < old(self).nodes@.len() && j != n ==> final(self).nodes@[j] == old(
                    self,
                ).nodes@[j],
    {
        let name = match &self.nodes[n] {
            Node::Server(srv) => srv.name.clone(),
            Node::Generator => String::new(),
        };
        self.nodes[n] = Node::Server(Server { name, state: st });
        proof {
            let prev = old(self).nodes@;
            let cur = self.nodes@;
            assert forall|i: int, j: int|
                #![trigger cur[i], cur[j]]
                0 <= i < j < cur.len() && cur[i].is_server()
                    && cur[j].is_server() implies cur[i].name_spec() != cur[j].name_spec() by {
                assert(cur[i].name_spec() == prev[i].name_spec() && cur[i].is_server()
                    == prev[i].is_server());
                assert(cur[j].name_spec() == prev[j].name_spec() && cur[j].is_server()
                    == prev[j].is_server());
            }
        }
    }

    /// Move the infection token: the previously infected node becomes
    /// corrupted and the target server becomes infected, atomically.
    /// Callers must have validated the move first.
    pub fn apply_move(&mut self, target: &str)
        requires
            old(self).wf(),
            exists|i: int| old(self).is_unique_infected(i),
            old(self).move_legal(old(self).infected_node(), target@),
        ensures
            final(self).wf(),
            final(self).topology == old(self).topology,
            final(self).wires == old(self).wires,
            final(self).nodes@.len() == old(self).nodes@.len(),
            forall|n: int|
                0 <= n < old(self).nodes@.len() && n != old(self).infected_node() && !old(
                    self,
                ).is_server_named(n, target@) ==> final(self).nodes@[n] == old(self).nodes@[n],
            final(self).nodes@[old(self).infected_node()].in_state(ServerState::Corrupted),
            final(self).nodes@[old(self).infected_node()].name_spec() == old(self).nodes@[old(
                self,
            ).infected_node()].name_spec(),
            final(self).is_unique_infected(old(self).server_named(target@)),
            final(self).nodes@[old(self).server_named(target@)].name_spec() == target@,
    {
        proof {
            let i0 = choose|i: int| old(self).is_unique_infected(i);
            assert(old(self).infected_node() == i0 || old(self).is_unique_infected(
                old(self).infected_node(),
            ));
        }
        let inf = match self.find_infected() {
            Ok(i) => i,
            Err(_) => {
                proof {
                    assert(false);
                }
                return ;
            },
        };
        proof {
            assert(old(self).is_unique_infected(inf as int));
            assert(old(self).infected_node() == inf as int) by {
                let i1 = old(self).infected_node();
                assert(old(self).is_unique_infected(i1));
                if i1 != inf as int {
                    assert(!old(self).nodes@[i1].is_infected());
                }
            }
            let k = choose|k: int|
                0 <= k < old(self).topology.adj_map()[inf as int].len() && old(
                    self,
                ).neighbor_matches(inf as int, k, target@);
            let m = old(self).topology.adj_map()[inf as int][k].1 as int;
            assert(old(self).is_server_named(m, target@));
        }
        let tname = target.to_owned();
        let tn = match self.find_server(&tname) {
            Some(t) => t,
            None => {
                proof {
                    assert(false);
                }
                return ;
            },
        };
        proof {
            assert(old(self).server_named(target@) == tn as int) by {
                let t1 = old(self).server_named(target@);
                assert(old(self).is_server_named(t1, target@));
                if t1 != tn as int {
                    assert(old(self).nodes@[t1].name_spec() == old(self).nodes@[tn as int].name_spec());
                }
            }
            assert(tn != inf) by {
                let k = choose|k: int|
                    0 <= k < old(self).topology.adj_map()[inf as int].len() && old(
                        self,
                    ).neighbor_matches(inf as int, k, target@);
                let m = old(self).topology.adj_map()[inf as int][k].1 as int;
                assert(old(self).nodes@[m].in_state(ServerState::Corrupted));
                assert(m == tn as int || old(self).nodes@[m].name_spec() != old(
                    self,
                ).nodes@[tn as int].name_spec());
            }
        }
        self.set_state(inf, ServerState::Corrupted);
        self.set_state(tn, ServerState::Infected);
        proof {
            assert forall|j: int|
                0 <= j < self.nodes@.len() && j != tn as int implies !(
            #[trigger] self.nodes@[j]).is_infected() by {
                if j == inf as int {
                    assert(self.nodes@[j].in_state(ServerState::Corrupted));
                } else {
                    assert(self.nodes@[j] == old(self).nodes@[j]);
                    assert(!old(self).nodes@[j].is_infected());
                }
            }
            assert(self.is_unique_infected(tn as int));
        }
    }

    /// Validate and, when legal, apply a requested infection move. An
    /// illegal request leaves the network unchanged and reports `false`.
    pub fn try_move(&mut self, target: &str) -> (r: Result<bool, NetError>)
        requires
            old(self).wf(),
        ensures
            final(self).wf(),
            r is Ok <==> exists|i: int| old(self).is_unique_infected(i),
            r is Err ==> *final(self) == *old(self),
            r == Err::<bool, NetError>(NetError::NoInfectedNode) <==> forall|n: int|
                0 <= n < old(self).nodes@.len() ==> !(#[trigger] old(self).nodes@[n]).is_infected(),
            r == Err::<bool, NetError>(NetError::MultipleInfectedNodes) <==> exists|i: int, j: int|
                0 <= i < j < old(self).nodes@.len() && (#[trigger] old(
                    self,
                ).nodes@[i]).is_infected() && (#[trigger] old(self).nodes@[j]).is_infected(),
            r matches Ok(v) ==> v == old(self).move_legal(old(self).infected_node(), target@),
            r == Ok::<bool, NetError>(false) ==> *final(self) == *old(self),
            r == Ok::<bool, NetError>(true) ==> {
                &&& final(self).topology == old(self).topology
                &&& final(self).wires == old(self).wires
                &&& final(self).nodes@.len() == old(self).nodes@.len()
                &&& forall|n: int|
                    0 <= n < old(self).nodes@.len() && n != old(self).infected_node() && !old(
                        self,
                    ).is_server_named(n, target@) ==> final(self).nodes@[n] == old(self).nodes@[n]
                &&& final(self).nodes@[old(self).infected_node()].in_state(ServerState::Corrupted)
                &&& final(self).is_unique_infected(old(self).server_named(target@))
                &&& final(self).nodes@[old(self).server_named(target@)].name_spec() == target@
            },
    {
        let legal = match self.validate_move(target) {
            Ok(v) => v,
            Err(e) => {
                return Err(e);
            },
        };
        proof {
            let i0 = choose|i: int| old(self).is_unique_infected(i);
            assert(old(self).is_unique_infected(old(self).infected_node())) by {
                assert(old(self).is_unique_infected(i0));
            }
            let iw = choose|i: int|
                old(self).is_unique_infected(i) && legal == old(self).move_legal(i, target@);
            assert(iw == old(self).infected_node()) by {
                if iw != old(self).infected_node() {
                    assert(!old(self).nodes@[iw].is_infected());
                }
            }
        }
        if legal {
            self.apply_move(target);
            Ok(true)
        } else {
            Ok(false)
        }
    }
}

} // verus!
