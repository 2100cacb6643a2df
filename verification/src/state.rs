//! The state of eww: a graph of scopes holding variables, the edges between
//! them, and the listeners that react to changes of variables.

pub mod inheritance_map;
pub mod scope;
pub mod scope_graph;
pub mod updates;
