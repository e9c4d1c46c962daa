//! Dataflow tasks: a graph of nodes whose outputs feed the nodes they point to.
use vstd::prelude::*;

pub mod dag;
pub mod node;
pub mod run;


verus! {

/// The stored state of every node of a dataflow task, in node order.
pub struct DataFlowState {
    /// The state is a set of JS values made safe for serialization. An empty string is a node
    /// that has not produced anything yet.
    pub nodes: Vec<String>,
}

/// A connection from one node's output to another node's input, by node index.
#[derive(Clone, Copy, Debug, PartialEq, Eq, Structural, PartialOrd, Ord)]
pub struct DataFlowEdge {
    pub from: u32,
    pub to: u32,
}

impl DataFlowEdge {
    /// Whether this edge sorts before `other`: by source node, then by target node.
    pub fn sorts_before(&self, other: &DataFlowEdge) -> (r: bool)
        ensures
            r == (self.from < other.from || (self.from == other.from && self.to < other.to)),
    {
        self.from < other.from || (self.from == other.from && self.to < other.to)
    }
}

} // verus!
