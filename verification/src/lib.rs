//! A verified model of a node-and-wire network: a bidirectional adjacency
//! graph connecting servers and generators, per-wire cut-state management,
//! the integer skeleton of the wire-ribbon tessellator, and the validator
//! that gates the "infection move" action to topologically legal targets.

use vstd::prelude::*;

pub mod command;
pub mod cutset;
pub mod graph;
pub mod network;
pub mod tessellate;
pub mod server;
pub mod wire;

verus! {

/// Failure kinds for operations on the network.
///
/// `NoInfectedNode` and `MultipleInfectedNodes` report violations of the
/// "exactly one infected server" invariant; the others report bad arguments.
#[derive(Clone, Copy, PartialEq, Eq, Structural, Debug)]
pub enum NetError {
    UnknownNode,
    UnknownWire,
    InvalidTopology,
    DanglingTerminal,
    NoInfectedNode,
    MultipleInfectedNodes,
}

} // verus!
