//! The thin surface this core shares with the graph builder.
//!
//! Wiring a dataflow graph — registering operators, allocating channel
//! identifiers, binding pushers to ports — belongs to the surrounding
//! system; this module only allocates the indices those steps use and names
//! the endpoints (`Stream`, `Target`) that the two primitive operators
//! expose.

use vstd::prelude::*;

verus! {

/// Allocates operator indices and channel identifiers for one graph
/// replica, and remembers how many parallel replicas of the graph exist.
pub struct GraphBuilder {
    /// Number of parallel replicas of the whole graph.
    pub peers: usize,
    /// Next free operator index.
    pub next_index: usize,
    /// Next free channel identifier.
    pub next_channel: usize,
}

impl GraphBuilder {
    /// A builder for a graph replicated `peers` times.
    pub fn new(peers: usize) -> (r: GraphBuilder)
        requires
            1 <= peers,
            peers as int <= 0x7fff_ffff_ffff_ffff,
        ensures
            r.peers == peers,
            r.next_index == 0,
            r.next_channel == 0,
    {
        GraphBuilder { peers, next_index: 0, next_channel: 0 }
    }

    /// Registers one vertex, handing out its operator index.
    pub fn add_operator(&mut self) -> (i: usize)
        requires
            old(self).next_index < usize::MAX,
        ensures
            i == old(self).next_index,
            final(self).next_index == i + 1,
            final(self).peers == old(self).peers,
            final(self).next_channel == old(self).next_channel,
    {
        let i = self.next_index;
        self.next_index = self.next_index + 1;
        i
    }

    /// Hands out a fresh channel identifier for one connection.
    pub fn new_identifier(&mut self) -> (i: usize)
        requires
            old(self).next_channel < usize::MAX,
        ensures
            i == old(self).next_channel,
            final(self).next_channel == i + 1,
            final(self).peers == old(self).peers,
            final(self).next_index == old(self).next_index,
    {
        let i = self.next_channel;
        self.next_channel = self.next_channel + 1;
        i
    }

    /// How many parallel replicas of the graph exist.
    pub fn peers(&self) -> (n: usize)
        ensures
            n == self.peers,
    {
        self.peers
    }
}

/// The source end of a stream: an operator's output port.
#[derive(Clone, Copy, PartialEq, Eq, Structural, Debug)]
pub struct Stream {
    /// Index of the producing operator.
    pub index: usize,
    /// Output port on that operator.
    pub port: usize,
}

/// The destination end of a connection: an operator's input port.
#[derive(Clone, Copy, PartialEq, Eq, Structural, Debug)]
pub struct Target {
    /// Index of the consuming operator.
    pub index: usize,
    /// Input port on that operator.
    pub port: usize,
}

/// A completed connection from a stream to an input port, under one
/// channel identifier.
#[derive(Clone, Copy, PartialEq, Eq, Structural, Debug)]
pub struct Connection {
    /// Where the data comes from.
    pub source: Stream,
    /// Where it goes.
    pub target: Target,
    /// The channel the transport layer assigned to the edge.
    pub channel: usize,
}

} // verus!
