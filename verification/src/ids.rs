//! The names of things: syntax nodes, program points, dataflow nodes, functions
//! and summaries.

use vstd::prelude::*;

verus! {

/// A point of the program: a syntax node, and which of the points at that node.
#[derive(Clone, Copy, Debug, PartialEq, Eq, Hash, Structural)]
pub struct ProgramPoint {
    /// The syntax node.
    pub node_id: u32,
    /// Tells the points that share a syntax node apart.
    pub position: u32,
}

/// What kind of operation a dataflow node stands for.
#[derive(Clone, Copy, Debug, PartialEq, Eq, Hash, Structural)]
pub enum NodeOperationKind {
    /// A variable is read.
    Identifier,
    /// A property of an object is read.
    PropertyRead,
    /// A parameter of the function.
    Parameter,
    /// A binary operator is applied.
    BinaryOp,
    /// Any other kind, by number.
    Other(u32),
}

impl NodeOperationKind {
    /// A number that no two kinds share.
    pub open spec fn spec_code(self) -> u64 {
        match self {
            NodeOperationKind::Identifier => 0,
            NodeOperationKind::PropertyRead => 1,
            NodeOperationKind::Parameter => 2,
            NodeOperationKind::BinaryOp => 3,
            NodeOperationKind::Other(n) => (4 + n) as u64,
        }
    }

    /// The kind's number.
    pub fn code(&self) -> (code: u64)
        ensures
            code == self.spec_code(),
    {
        match *self {
            NodeOperationKind::Identifier => 0,
            NodeOperationKind::PropertyRead => 1,
            NodeOperationKind::Parameter => 2,
            NodeOperationKind::BinaryOp => 3,
            NodeOperationKind::Other(n) => 4 + n as u64,
        }
    }
}

/// A node of a dataflow graph: a kind of operation at a program point.
#[derive(Clone, Copy, Debug, PartialEq, Eq, Hash, Structural)]
pub struct DataflowNodeId {
    /// Where the operation happens.
    pub location: ProgramPoint,
    /// What kind of operation it is.
    pub kind: NodeOperationKind,
}

/// A function of the program: the syntax node that declares it, and its file.
#[derive(Clone, Copy, Debug, PartialEq, Eq, Hash, Structural)]
pub struct GlobalNodeId {
    /// The syntax node, numbered within its file.
    pub node_id: u32,
    /// The file's number.
    pub file: u32,
}

/// A summary of a function: the function, and the shape of the arguments that
/// it was analysed for, by number.
#[derive(Clone, Copy, Debug, PartialEq, Eq, Hash, Structural)]
pub struct MemoKey {
    /// The function.
    pub function_node_id: GlobalNodeId,
    /// The number of the argument shape.
    pub arg_shape: u32,
}

} // verus!
