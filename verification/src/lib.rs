//! An incremental dataflow execution engine.
//!
//! A fixed directed acyclic graph of compute steps ("nodes") is linearized
//! once and then re-evaluated many times; each tick recomputes only the nodes
//! whose inputs changed and propagates invalidation to their dependents.

pub mod basic;
pub mod describe;
pub mod dirty;
pub mod errors;
pub mod exec;
pub mod graph;
pub mod linear;
pub mod manual;
pub mod node;
pub mod ports;
pub mod value;
