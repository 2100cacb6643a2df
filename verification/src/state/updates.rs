//! The work that a change of a variable's value sets off in the scope graph.
//!
//! A change is propagated in steps kept on a stack: the attributes computed
//! from the variable are recomputed, the listeners that need it are called,
//! and the scopes that inherit it are notified in turn. Evaluating an
//! attribute's expression and running a listener's callback are left to the
//! caller: a step that needs one of them hands back an [`UpdateAction`].

use vstd::prelude::*;
use crate::names::{AttrName, NameMap, VarName};
use crate::state::scope::Listener;
use crate::state::scope_graph::{ProvidesAttrEdge, ScopeIndex};

verus! {

/// One piece of the work that a change of a variable's value sets off.
#[derive(Debug)]
pub enum UpdateStep<E> {
    /// `var` changed in `scope`: recompute the attributes that `scope`
    /// computes from it, then call the listeners of `scope` that need it, then
    /// notify the scopes that inherit it from `scope`.
    Notify { scope: ScopeIndex, var: VarName },
    /// Recompute the attribute that `source` provides to `target` through
    /// `edge`, from the values visible in `source`.
    ProvideAttribute { source: ScopeIndex, target: ScopeIndex, edge: ProvidesAttrEdge<E> },
    /// Call the listeners of `scope` that need `var`.
    Listeners { scope: ScopeIndex, var: VarName },
    /// Call the listener `id` of `scope` with the values of
    /// `needed_variables` as seen from `scope`.
    CallListener { scope: ScopeIndex, needed_variables: Vec<VarName>, id: u64 },
    /// Notify the scopes that inherit `var` from `scope`.
    Children { scope: ScopeIndex, var: VarName },
    /// Check the graph: the last step of a value update.
    Validate,
}

/// What the caller must do for the step that was just taken.
#[derive(Debug)]
pub enum UpdateAction<E> {
    /// Evaluate `expression` with `values`, and store the result as the
    /// variable `attr_name` of `target` with `update_value`.
    Evaluate { target: ScopeIndex, attr_name: AttrName, expression: E, values: NameMap<String> },
    /// Call the listener `id` with `values`.
    CallListener { id: u64, values: NameMap<String> },
}

/// The steps of the updates in progress; the last one is taken first.
#[derive(Debug)]
pub struct PendingUpdates<E> {
    steps: Vec<UpdateStep<E>>,
}

impl<E> View for PendingUpdates<E> {
    type V = Seq<UpdateStep<E>>;

    closed spec fn view(&self) -> Seq<UpdateStep<E>> {
        self.steps@
    }
}

impl<E> PendingUpdates<E> {
    /// No work pending.
    pub fn new() -> (p: Self)
        ensures
            p@ == Seq::<UpdateStep<E>>::empty(),
    {
        PendingUpdates { steps: Vec::new() }
    }

    /// Whether all the work is done.
    pub fn is_empty(&self) -> (b: bool)
        ensures
            b == (self@.len() == 0),
    {
        self.steps.len() == 0
    }

    pub(crate) fn push(&mut self, step: UpdateStep<E>)
        ensures
            final(self)@ == old(self)@.push(step),
    {
        self.steps.push(step);
    }

    pub(crate) fn pop(&mut self) -> (r: Option<UpdateStep<E>>)
        ensures
            old(self)@.len() == 0 ==> r is None && final(self)@ == old(self)@,
            old(self)@.len() > 0 ==> r == Some(old(self)@.last()) && final(self)@ == old(self)@.drop_last(),
    {
        self.steps.pop()
    }
}

/// The number of times `var` occurs in `names`.
pub open spec fn occurrences(names: Seq<VarName>, var: Seq<char>) -> nat
    decreases names.len(),
{
    if names.len() == 0 {
        0
    } else {
        occurrences(names.drop_last(), var) + if names.last()@ == var { 1nat } else { 0nat }
    }
}

/// The calls that a change of `var` sets off among the listeners `ls`: each
/// listener, in the order of registration, once for each time it needs
/// `var`; a call is given by the listener's needed variables and its id.
pub open spec fn triggered(ls: Seq<Listener>, var: Seq<char>) -> Seq<(Seq<VarName>, u64)>
    decreases ls.len(),
{
    if ls.len() == 0 {
        Seq::empty()
    } else {
        triggered(ls.drop_last(), var) + Seq::new(
            occurrences(ls.last().needed_variables@, var),
            |i: int| (ls.last().needed_variables@, ls.last().id),
        )
    }
}

/// `steps` are the listener calls `calls` in `scope`, in the same order.
pub open spec fn calls_in<E>(steps: Seq<UpdateStep<E>>, scope: ScopeIndex, calls: Seq<(Seq<VarName>, u64)>) -> bool {
    &&& steps.len() == calls.len()
    &&& forall|q: int| 0 <= q < steps.len() ==> (#[trigger] steps[q] matches UpdateStep::CallListener {
        scope: s, needed_variables, id } && s == scope && needed_variables@ == calls[q].0 && id == calls[q].1)
}

} // verus!
