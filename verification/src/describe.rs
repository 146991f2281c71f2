use vstd::prelude::*;

verus! {

/// A serializable description of one named port: an identity, a display
/// name, prose, and the name of the value type it carries.
#[derive(Clone, Debug, PartialEq, Eq)]
pub struct PortDescriptor {
    pub id: String,
    pub name: String,
    pub description: String,
    pub ty: String,
}

impl PortDescriptor {
    /// A port descriptor whose identity is its name.
    pub fn new(name: &str, description: &str, ty: &str) -> (r: Self)
        ensures
            r.id@ == name@,
            r.name@ == name@,
            r.description@ == description@,
            r.ty@ == ty@,
    {
        PortDescriptor {
            id: name.to_owned(),
            name: name.to_owned(),
            description: description.to_owned(),
            ty: ty.to_owned(),
        }
    }
}

/// A serializable description of one node kind: its ports and prose.
#[derive(Clone, Debug, PartialEq, Eq)]
pub struct NodeDescriptor {
    pub id: u64,
    pub name: String,
    pub description: String,
    pub inputs: Vec<PortDescriptor>,
    pub outputs: Vec<PortDescriptor>,
}

impl NodeDescriptor {
    /// A node descriptor with the given ports and a zero identity.
    pub fn new(
        name: &str,
        description: &str,
        inputs: Vec<PortDescriptor>,
        outputs: Vec<PortDescriptor>,
    ) -> (r: Self)
        ensures
            r.id == 0,
            r.name@ == name@,
            r.description@ == description@,
            r.inputs == inputs,
            r.outputs == outputs,
    {
        NodeDescriptor {
            id: 0,
            name: name.to_owned(),
            description: description.to_owned(),
            inputs,
            outputs,
        }
    }
}

/// A serializable catalogue of node kinds offered by one crate.
#[derive(Clone, Debug, PartialEq, Eq)]
pub struct Library {
    pub name: String,
    pub crate_name: String,
    pub description: String,
    pub nodes: Vec<NodeDescriptor>,
}

impl Library {
    /// An empty catalogue.
    pub fn new(name: &str, crate_name: &str, description: &str) -> (r: Self)
        ensures
            r.name@ == name@,
            r.crate_name@ == crate_name@,
            r.description@ == description@,
            r.nodes@.len() == 0,
    {
        Library {
            name: name.to_owned(),
            crate_name: crate_name.to_owned(),
            description: description.to_owned(),
            nodes: Vec::new(),
        }
    }

    /// Append one node kind to the catalogue.
    pub fn add_node(&mut self, node: NodeDescriptor)
        ensures
            final(self).name == old(self).name,
            final(self).crate_name == old(self).crate_name,
            final(self).description == old(self).description,
            final(self).nodes@ == old(self).nodes@.push(node),
    {
        self.nodes.push(node);
    }
}

/// A one-slot store holding a single seeded string.
#[derive(Debug)]
pub struct Store {
    pub initial_string: String,
}

impl Default for Store {
    fn default() -> (r: Self)
        ensures
            r.initial_string@.len() == 0,
    {
        Store { initial_string: String::new() }
    }
}

} // verus!
