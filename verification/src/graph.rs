//! The dataflow graph of one function: its operations, and how values flow
//! between them.

use vstd::prelude::*;

use crate::ids::{DataflowNodeId, GlobalNodeId};
use crate::value::AbstractValue;

verus! {

/// What a dataflow node does, as far as the queries look at it.
#[derive(Debug, PartialEq, Eq)]
pub enum NodeOperation {
    /// A call.
    Call {
        /// The functions that may be called.
        callees: Vec<GlobalNodeId>,
        /// The name that the call is written with, where there is one.
        function_name: Option<String>,
    },
    /// Anything else.
    Other,
}

/// A node of the graph.
#[derive(Debug, PartialEq, Eq)]
pub struct DataflowNode {
    /// The node's name.
    pub id: DataflowNodeId,
    /// What the node does.
    pub operation: NodeOperation,
    /// What is known of the value that the node gives.
    pub abstract_value: AbstractValue,
}

/// How a value flows along an edge.
#[derive(Debug, PartialEq, Eq)]
pub enum DataflowEdgeKind {
    /// The value itself flows on.
    DirectFlow,
    /// The value is written to a property.
    Store,
    /// A property of the value is read.
    Load {
        /// The property's name.
        property: String,
    },
    /// The value is an operand of what is computed.
    Derivation,
    /// Any other kind.
    Other,
}

/// An edge of the graph.
#[derive(Debug, PartialEq, Eq)]
pub struct DataflowEdge {
    /// Where the value comes from.
    pub source: DataflowNodeId,
    /// Where the value goes.
    pub target: DataflowNodeId,
    /// How it gets there.
    pub kind: DataflowEdgeKind,
}

/// The dataflow graph of one function.
#[derive(Debug, PartialEq, Eq)]
pub struct LocalDataflowGraph {
    /// The nodes. Of two nodes with one name the first counts.
    pub nodes: Vec<DataflowNode>,
    /// The edges. The ends of an edge need not be among the nodes.
    pub edges: Vec<DataflowEdge>,
}

/// The first of the nodes that has the given name.
pub open spec fn first_named(nodes: Seq<DataflowNode>, id: DataflowNodeId) -> Option<DataflowNode>
    decreases nodes.len(),
{
    if nodes.len() == 0 {
        None
    } else if nodes[0].id == id {
        Some(nodes[0])
    } else {
        first_named(nodes.skip(1), id)
    }
}

impl LocalDataflowGraph {
    /// The node of the given name.
    pub open spec fn spec_node(self, id: DataflowNodeId) -> Option<DataflowNode> {
        first_named(self.nodes@, id)
    }

    /// Finds a node by its name.
    pub fn get_node(&self, id: &DataflowNodeId) -> (node: Option<&DataflowNode>)
        ensures
            node is Some == self.spec_node(*id) is Some,
            node matches Some(n) ==> self.spec_node(*id) == Some(*n),
    {
        assert(self.nodes@.skip(0) =~= self.nodes@);
        let mut i: usize = 0;
        while i < self.nodes.len()
            invariant
                i <= self.nodes@.len(),
                self.spec_node(*id) == first_named(self.nodes@.skip(i as int), *id),
            decreases self.nodes@.len() - i,
        {
            assert(self.nodes@.skip(i as int).skip(1) =~= self.nodes@.skip(i + 1));
            if self.nodes[i].id == *id {
                return Some(&self.nodes[i]);
            }
            i += 1;
        }
        None
    }

    /// Lists the edges that lead to a node, by number, in order.
    pub fn get_reverse_edges(&self, id: &DataflowNodeId) -> (indices: Vec<usize>)
        ensures
            forall|k: int|
                0 <= k < indices@.len() ==> #[trigger] indices@[k] < self.edges@.len()
                    && self.edges@[indices@[k] as int].target == *id,
            forall|k: int, l: int| 0 <= k < l < indices@.len() ==> indices@[k] < indices@[l],
            forall|e: int|
                0 <= e < self.edges@.len() && (#[trigger] self.edges@[e]).target == *id
                    ==> exists|k: int| 0 <= k < indices@.len() && #[trigger] indices@[k] == e,
    {
        let mut indices: Vec<usize> = Vec::new();
        let mut i: usize = 0;
        while i < self.edges.len()
            invariant
                i <= self.edges@.len(),
                forall|k: int|
                    0 <= k < indices@.len() ==> #[trigger] indices@[k] < i
                        && self.edges@[indices@[k] as int].target == *id,
                forall|k: int, l: int|
                    0 <= k < l < indices@.len() ==> indices@[k] < indices@[l],
                forall|e: int|
                    0 <= e < i && (#[trigger] self.edges@[e]).target == *id
                        ==> exists|k: int| 0 <= k < indices@.len() && #[trigger] indices@[k] == e,
            decreases self.edges@.len() - i,
        {
            if self.edges[i].target == *id {
                let ghost before = indices@;
                indices.push(i);
                assert forall|e: int|
                    0 <= e < i + 1 && (#[trigger] self.edges@[e]).target
                        == *id implies exists|k: int|
                    0 <= k < indices@.len() && #[trigger] indices@[k] == e by {
                    if e < i {
                        let k = choose|k: int| 0 <= k < before.len() && #[trigger] before[k] == e;
                        assert(indices@[k] == e);
                    } else {
                        assert(indices@[before.len() as int] == e);
                    }
                }
            }
            i += 1;
        }
        indices
    }

    /// The edge of the given number.
    pub fn get_edge(&self, index: usize) -> (edge: &DataflowEdge)
        requires
            index < self.edges@.len(),
        ensures
            *edge == self.edges@[index as int],
    {
        &self.edges[index]
    }
}

} // verus!
