//! Nodes of the network: servers (named, stateful) and generators.

use vstd::prelude::*;

verus! {

/// The state of a server. Exactly one server system-wide is `Infected`
/// at any settled point in time; the move validator preserves this.
#[derive(Clone, Copy, PartialEq, Eq, Structural, Debug)]
pub enum ServerState {
    Healthy,
    Corrupted,
    Infected,
}

/// A server: a named node that the infection token can occupy.
pub struct Server {
    pub name: String,
    pub state: ServerState,
}

/// A node of the network: either a server or a power generator.
pub enum Node {
    Server(Server),
    Generator,
}

impl Node {
    pub open spec fn is_server(self) -> bool {
        self is Server
    }

    pub open spec fn is_generator(self) -> bool {
        self is Generator
    }

    /// The server's name (meaningful only for servers).
    pub open spec fn name_spec(self) -> Seq<char> {
        match self {
            Node::Server(s) => s.name@,
            Node::Generator => Seq::empty(),
        }
    }

    /// Whether this node is a server currently holding the infection token.
    pub open spec fn is_infected(self) -> bool {
        match self {
            Node::Server(s) => s.state == ServerState::Infected,
            Node::Generator => false,
        }
    }

    /// Whether this node is a server in the given state.
    pub open spec fn in_state(self, st: ServerState) -> bool {
        match self {
            Node::Server(s) => s.state == st,
            Node::Generator => false,
        }
    }
}

} // verus!
