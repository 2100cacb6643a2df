//! A scope of the scope graph: the variables it defines and the listeners
//! that react to changes of variables visible in it.

use vstd::prelude::*;
use crate::names::{NameMap, VarName};
use crate::state::scope_graph::ScopeIndex;

verus! {

/// A listener: a callback, known to the graph by its id, and the variables
/// whose values it is called with. The code that registers a listener keeps
/// the callback itself under that id.
#[derive(Debug)]
pub struct Listener {
    pub needed_variables: Vec<VarName>,
    pub id: u64,
}

/// A scope: a named set of variables. It may inherit further variables from
/// a parent scope.
#[derive(Debug)]
pub struct Scope {
    pub name: String,
    /// The scope that created this one.
    pub ancestor: Option<ScopeIndex>,
    /// The variables this scope defines, and their values.
    pub data: NameMap<String>,
    /// The listeners that react to value changes in this scope, in the order
    /// in which they were registered. A listener may need variables that are
    /// not defined in this scope but in the scopes it inherits from.
    pub listeners: Vec<Listener>,
    pub node_index: ScopeIndex,
}

impl Scope {
    /// Initializes a scope **incompletely**. The [`node_index`] is not set
    /// correctly, and needs to be set to the index of the node in the scope
    /// graph that connects to this scope.
    pub fn new(name: String, created_by: Option<ScopeIndex>, data: NameMap<String>) -> (s: Self)
        ensures
            s.name == name,
            s.ancestor == created_by,
            s.data == data,
            s.listeners@.len() == 0,
            s.node_index == ScopeIndex(0),
    {
        Scope { name, ancestor: created_by, data, listeners: Vec::new(), node_index: ScopeIndex(0) }
    }
}

} // verus!
