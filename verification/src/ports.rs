use vstd::prelude::*;

verus! {

/// Authoring-time description of one input port of a node kind: its name and
/// the tokens of its declared type.
#[derive(Clone, Debug, PartialEq, Eq)]
pub struct DynPort {
    pub name: String,
    pub kind: Vec<String>,
}

/// Introspection record for a whole node kind.
#[derive(Clone, Debug, PartialEq, Eq)]
pub struct NodeInfo {
    pub kind: String,
    pub inputs: Vec<Port>,
    pub outputs: Vec<Port>,
}

/// One named port with its type tokens, as listed by `NodeInfo`.
#[derive(Clone, Debug, PartialEq, Eq)]
pub struct Port {
    pub name: String,
    pub kind: Vec<String>,
}

} // verus!
