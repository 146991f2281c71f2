use vstd::prelude::*;

verus! {

/// Errors raised by the execution engine.  These all indicate a malformed
/// execution graph or a contract violation between a node and its wiring,
/// never a data-level condition (a missing upstream value is represented by
/// the `Stale` dirty state, not by an error).
#[derive(Clone, Copy, Debug, PartialEq, Eq, Structural)]
pub enum ExecError {
    /// A node asked for an input at a store offset at or above its own
    /// output base offset.
    InputOutOfRange,
    /// A node fetched an input whose store slot is empty.
    FetchNone,
    /// A value was requested from an empty store slot.
    ValueIsNone,
    /// A typed projection was applied to a cell holding another type.
    TypeMismatch,
    /// A node's arithmetic overflowed the machine integer it computes with.
    Overflow,
}

impl ExecError {
    /// A human-readable description of the error.
    pub fn message(&self) -> (r: &'static str)
        ensures r@.len() > 0,
    {
        let s = match self {
            ExecError::InputOutOfRange => "input out of range",
            ExecError::FetchNone => "fetch of an empty slot",
            ExecError::ValueIsNone => "value is none",
            ExecError::TypeMismatch => "type mismatch",
            ExecError::Overflow => "arithmetic overflow",
        };
        proof {
            reveal_strlit("input out of range");
            reveal_strlit("fetch of an empty slot");
            reveal_strlit("value is none");
            reveal_strlit("type mismatch");
            reveal_strlit("arithmetic overflow");
        }
        s
    }
}

/// Errors raised while turning an authoring graph into a linear execution
/// description.
#[derive(Clone, Copy, Debug, PartialEq, Eq, Structural)]
pub enum GraphError {
    /// The authoring graph contains a cycle; no execution order exists.
    CycleDetected,
    /// A connection names a source node identity that the graph does not hold.
    NodeNotFound,
    /// A declared input port has no incoming connection wired to it.
    MissingConnection,
    /// A connection names an output port that its source node does not declare.
    MissingPort,
    /// The node database has no entry for a node's kind.
    UnknownKind,
    /// The graph is too large for the index type of the sorting backend.
    GraphTooLarge,
}

impl GraphError {
    /// A human-readable description of the error.
    pub fn message(&self) -> (r: &'static str)
        ensures r@.len() > 0,
    {
        let s = match self {
            GraphError::CycleDetected => "cycle detected",
            GraphError::NodeNotFound => "node not found",
            GraphError::MissingConnection => "missing connection",
            GraphError::MissingPort => "missing port",
            GraphError::UnknownKind => "unknown node kind",
            GraphError::GraphTooLarge => "graph too large",
        };
        proof {
            reveal_strlit("cycle detected");
            reveal_strlit("node not found");
            reveal_strlit("missing connection");
            reveal_strlit("missing port");
            reveal_strlit("unknown node kind");
            reveal_strlit("graph too large");
        }
        s
    }
}

} // verus!
