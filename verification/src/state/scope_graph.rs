//! The scope graph: scopes that inherit variables from each other and provide
//! attributes to each other.

use std::collections::HashMap;
use std::collections::hash_map::Entry;
use vstd::prelude::*;
use vstd::std_specs::iter::IteratorSpec;
use crate::names::{AttrName, NameMap, VarName, lemma_names_are_keys};
use crate::state::inheritance_map::OneToNElementsMap;
use crate::state::scope::{Listener, Scope};
use crate::state::updates::{PendingUpdates, UpdateAction, UpdateStep, occurrences, triggered};
use tokio::sync::mpsc::UnboundedSender;

verus! {

/// tokio's `UnboundedSender`, the sending half of an unbounded channel;
/// the graph only carries it for the widgets of its scopes.
#[verifier::external_type_specification]
#[verifier::external_body]
#[verifier::reject_recursive_types(T)]
pub struct ExUnboundedSender<T>(UnboundedSender<T>);

/// The index of a scope in the scope graph.
#[derive(Hash, Eq, PartialEq, Copy, Clone, Structural, Debug)]
pub struct ScopeIndex(pub u32);

impl ScopeIndex {
    /// The next index.
    pub fn advance(&mut self)
        requires
            old(self).0 < u32::MAX,
        ensures
            final(self).0 == old(self).0 + 1,
    {
        self.0 = self.0 + 1;
    }
}

/// a -- inherits scope of --> b
/// A single scope inherits from 0-1 scopes (the global scope inherits from
/// no other scope). If a inherits from b and references variable V, V may
/// either be available in b or in scopes that b inherits from. The edge
/// records the variables that a references through it.
#[derive(Debug)]
pub struct InheritsEdge {
    references: NameMap<()>,
}

impl InheritsEdge {
    /// An edge through which no variable is referenced yet.
    pub fn new() -> (e: Self)
        ensures
            e.wf(),
            e.references_spec() == Set::<Seq<char>>::empty(),
    {
        let e = InheritsEdge { references: NameMap::new() };
        assert(e.references_spec() =~= Set::<Seq<char>>::empty());
        e
    }

    pub closed spec fn wf(&self) -> bool {
        self.references.wf()
    }

    /// The variables referenced through this edge.
    pub closed spec fn references_spec(&self) -> Set<Seq<char>> {
        self.references@.dom()
    }

    /// Whether `var_name` is referenced through this edge.
    pub fn references(&self, var_name: &VarName) -> (b: bool)
        requires
            self.wf(),
        ensures
            b == self.references_spec().contains(var_name@),
    {
        self.references.contains_key(var_name)
    }

    /// The variables referenced through this edge, each once.
    pub fn reference_names(&self) -> (r: Vec<VarName>)
        requires
            self.wf(),
        ensures
            forall|v: Seq<char>| #[trigger] refs_contain(r@, v) <==> self.references_spec().contains(v),
    {
        let mut r: Vec<VarName> = Vec::new();
        let mut i: usize = 0;
        while i < self.references.len()
            invariant
                self.wf(),
                0 <= i <= self.references.names().len(),
                r@.len() == i,
                forall|k: int| 0 <= k < i ==> (#[trigger] r@[k])@ == self.references.names()[k],
            decreases self.references.names().len() - i,
        {
            r.push(self.references.name_at(i).copy());
            i = i + 1;
        }
        proof {
            lemma_names_are_keys(&self.references);
            assert forall|v: Seq<char>| #[trigger] refs_contain(r@, v) <==> self.references_spec().contains(v) by {
                if refs_contain(r@, v) {
                    let k = choose|k: int| 0 <= k < r@.len() && #[trigger] r@[k]@ == v;
                    assert(self.references.names()[k] == v);
                    assert(self.references.names().contains(v));
                }
                if self.references_spec().contains(v) {
                    assert(self.references.names().contains(v));
                    let k = choose|k: int| 0 <= k < self.references.names().len() && self.references.names()[k] == v;
                    assert(r@[k]@ == v);
                }
            }
        }
        r
    }

    /// Records that `var_name` is referenced through this edge.
    pub fn add_reference(&mut self, var_name: VarName)
        requires
            old(self).wf(),
        ensures
            final(self).wf(),
            final(self).references_spec() == old(self).references_spec().insert(var_name@),
    {
        self.references.insert(var_name, ());
        assert(self.references_spec() =~= old(self).references_spec().insert(var_name@));
    }
}

/// a --provides attribute [attr_name] calculated via [expression] to--> b
/// A single scope may provide 0-n attributes to 0-n scopes. The expression
/// itself is evaluated by the caller; the graph keeps it with the variables
/// that it references.
#[derive(Debug, Clone)]
pub struct ProvidesAttrEdge<E> {
    pub attr_name: AttrName,
    pub expression: E,
    pub references: Vec<VarName>,
}

/// Whether the variable `var` is among `refs`.
pub open spec fn refs_contain(refs: Seq<VarName>, var: Seq<char>) -> bool {
    exists|i: int| 0 <= i < refs.len() && #[trigger] refs[i]@ == var
}

impl<E> ProvidesAttrEdge<E> {
    /// Whether the expression of this edge references `var_name`.
    pub fn references_var(&self, var_name: &VarName) -> (b: bool)
        ensures
            b == refs_contain(self.references@, var_name@),
    {
        let mut i: usize = 0;
        while i < self.references.len()
            invariant
                i <= self.references@.len(),
                forall|j: int| 0 <= j < i ==> #[trigger] self.references@[j]@ != var_name@,
            decreases self.references.len() - i,
        {
            if self.references[i].same(var_name) {
                return true;
            }
            i = i + 1;
        }
        false
    }
}

/// `b` has the attribute name and the references of `a`, and a clone of its
/// expression.
pub open spec fn copied_edge<E: Clone>(a: ProvidesAttrEdge<E>, b: ProvidesAttrEdge<E>) -> bool {
    &&& b.attr_name == a.attr_name
    &&& b.references@ == a.references@
    &&& cloned(a.expression, b.expression)
}

impl<E: Clone> ProvidesAttrEdge<E> {
    /// A copy of the edge, with a clone of its expression.
    pub fn copy(&self) -> (r: Self)
        ensures
            copied_edge(*self, r),
    {
        ProvidesAttrEdge { attr_name: self.attr_name.copy(), expression: self.expression.clone(), references: copy_names(&self.references) }
    }
}

/// Events that the widgets of a scope send to the graph.
#[derive(Debug)]
pub enum ScopeGraphEvent {
    RemoveScope(ScopeIndex),
}

/// Why an operation of the scope graph failed.
#[derive(Debug)]
pub enum ScopeGraphError {
    /// The scope is not in the graph.
    ScopeNotInGraph(ScopeIndex),
    /// The variable is neither defined in the scope nor in the scopes it inherits from.
    VariableNotInScope(VarName),
    /// The child scope does not inherit from any scope, but was assumed to inherit from `parent`.
    NoParentScope { child: ScopeIndex, parent: ScopeIndex },
    /// The child scope inherits from `actual`, not from the given `parent`.
    WrongParentScope { child: ScopeIndex, parent: ScopeIndex, actual: ScopeIndex },
    /// `validate`: a scope of the hierarchy map is not in the graph.
    HierarchyKeyNotInGraph(ScopeIndex),
    /// `validate`: the parent of an edge of the hierarchy map is not in the graph.
    HierarchyValueNotInGraph(ScopeIndex),
    /// `validate`: a scope of the inheritance map is not in the graph.
    InheritsKeyNotInGraph(ScopeIndex),
    /// `validate`: the parent of an edge of the inheritance map is not in the graph.
    InheritsValueNotInGraph(ScopeIndex),
}

/// Where the walk from a scope along the inheritance edges ends when it looks
/// for a variable.
pub enum ChainEnd {
    /// At the scope that defines the variable.
    Defined(ScopeIndex),
    /// At an index that is not in the graph.
    Missing(ScopeIndex),
    /// At a scope that neither defines the variable nor inherits from a scope.
    Orphan,
}

/// An attribute that a scope provides to a scope it creates: its name, the
/// expression it is computed from, the variables that the expression
/// references, and its current value, evaluated in the creating scope.
pub struct AttributeValue<E> {
    pub name: AttrName,
    pub expression: E,
    pub references: Vec<VarName>,
    pub value: String,
}

/// The attribute edge that keeps `a` up to date.
pub open spec fn attribute_edge<E>(a: AttributeValue<E>) -> ProvidesAttrEdge<E> {
    ProvidesAttrEdge { attr_name: a.name, expression: a.expression, references: a.references }
}

/// The variables of a new scope: each attribute's name mapped to its value,
/// a later attribute of the same name replacing an earlier one.
pub open spec fn attribute_values<E>(attrs: Seq<AttributeValue<E>>) -> Map<Seq<char>, String>
    decreases attrs.len(),
{
    if attrs.len() == 0 {
        Map::empty()
    } else {
        attribute_values(attrs.drop_last()).insert(attrs.last().name@, attrs.last().value)
    }
}

/// Some attribute of `attrs` references `var`.
pub open spec fn attributes_reference<E>(attrs: Seq<AttributeValue<E>>, var: Seq<char>) -> bool {
    exists|k: int| 0 <= k < attrs.len() && refs_contain((#[trigger] attrs[k]).references@, var)
}

/// A copy of the names of `v`.
pub fn copy_names(v: &Vec<VarName>) -> (r: Vec<VarName>)
    ensures
        r@ == v@,
{
    let mut r: Vec<VarName> = Vec::new();
    let mut i: usize = 0;
    while i < v.len()
        invariant
            0 <= i <= v@.len(),
            r@ == v@.take(i as int),
        decreases v.len() - i,
    {
        r.push(v[i].copy());
        i = i + 1;
        assert(r@ =~= v@.take(i as int));
    }
    assert(v@.take(v@.len() as int) =~= v@);
    r
}

/// `x` is `root`, or is reached from `root` by following edges of `h` from
/// child to parent, where each parent is smaller than its child.
pub open spec fn in_subtree<D>(h: Map<u32, (ScopeIndex, D)>, root: u32, x: u32) -> bool
    decreases x,
{
    x == root || (h.contains_key(x) && h[x].0.0 < x && in_subtree(h, root, h[x].0.0))
}

pub proof fn lemma_subtree_above_root<D>(h: Map<u32, (ScopeIndex, D)>, root: u32, x: u32)
    requires
        in_subtree(h, root, x),
    ensures
        root <= x,
    decreases x,
{
    if x != root {
        lemma_subtree_above_root(h, root, h[x].0.0);
    }
}

pub proof fn lemma_subtree_transitive<D>(h: Map<u32, (ScopeIndex, D)>, a: u32, b: u32, x: u32)
    requires
        in_subtree(h, a, b),
        in_subtree(h, b, x),
    ensures
        in_subtree(h, a, x),
    decreases x,
{
    if x != b {
        lemma_subtree_transitive(h, a, b, h[x].0.0);
    }
}

pub proof fn lemma_subtree_comparable<D>(h: Map<u32, (ScopeIndex, D)>, a: u32, b: u32, x: u32)
    requires
        in_subtree(h, a, x),
        in_subtree(h, b, x),
    ensures
        in_subtree(h, a, b) || in_subtree(h, b, a),
    decreases x,
{
    if x != a && x != b {
        lemma_subtree_comparable(h, a, b, h[x].0.0);
    }
}

/// `x` lies in the subtree of one of the first `j` scopes of `kids`.
pub open spec fn removed_by<D>(h: Map<u32, (ScopeIndex, D)>, kids: Seq<u32>, j: int, x: u32) -> bool {
    exists|m: int| 0 <= m < j && #[trigger] in_subtree(h, kids[m], x)
}

proof fn lemma_removed_by_step<D>(h: Map<u32, (ScopeIndex, D)>, kids: Seq<u32>, j: int)
    requires
        0 <= j < kids.len(),
    ensures
        forall|x: u32| #[trigger] removed_by(h, kids, j + 1, x) == (removed_by(h, kids, j, x) || in_subtree(h, kids[j], x)),
{
    assert forall|x: u32| #[trigger] removed_by(h, kids, j + 1, x) == (removed_by(h, kids, j, x) || in_subtree(h, kids[j], x)) by {
        if removed_by(h, kids, j + 1, x) {
            let m = choose|m: int| 0 <= m < j + 1 && #[trigger] in_subtree(h, kids[m], x);
        }
        if in_subtree(h, kids[j], x) {
            assert(in_subtree(h, kids[j], x));
        }
    }
}

/// While the subtrees of the first `j` children are removed, the subtree of
/// the next child is the same in what is left of the map.
proof fn lemma_removed_keeps_subtree<D>(h: Map<u32, (ScopeIndex, D)>, kids: Seq<u32>, j: int, root: u32, cur: Map<u32, (ScopeIndex, D)>)
    requires
        0 <= j < kids.len(),
        kids.no_duplicates(),
        forall|m: int| 0 <= m < kids.len() ==> h.contains_key(#[trigger] kids[m])
            && h[kids[m]].0.0 == root && root < kids[m],
        forall|c: u32| #[trigger] cur.contains_key(c) == (h.contains_key(c) && !removed_by(h, kids, j, c)),
        forall|c: u32| #[trigger] cur.contains_key(c) ==> cur[c] == h[c],
    ensures
        forall|x: u32| #[trigger] in_subtree(cur, kids[j], x) == in_subtree(h, kids[j], x),
        !removed_by(h, kids, j, kids[j]),
{
    let d = kids[j];
    assert(!removed_by(h, kids, j, d)) by {
        if removed_by(h, kids, j, d) {
            let m = choose|m: int| 0 <= m < j && #[trigger] in_subtree(h, kids[m], d);
            assert(kids[m] != kids[j]);
            assert(h[d].0.0 == root);
            assert(in_subtree(h, kids[m], root));
            lemma_subtree_above_root(h, kids[m], root);
        }
    }
    assert forall|x: u32| #[trigger] in_subtree(cur, d, x) == in_subtree(h, d, x) by {
        lemma_removed_keeps_subtree_at(h, kids, j, root, cur, x);
    }
}

proof fn lemma_removed_keeps_subtree_at<D>(h: Map<u32, (ScopeIndex, D)>, kids: Seq<u32>, j: int, root: u32, cur: Map<u32, (ScopeIndex, D)>, x: u32)
    requires
        0 <= j < kids.len(),
        kids.no_duplicates(),
        forall|m: int| 0 <= m < kids.len() ==> h.contains_key(#[trigger] kids[m])
            && h[kids[m]].0.0 == root && root < kids[m],
        forall|c: u32| #[trigger] cur.contains_key(c) == (h.contains_key(c) && !removed_by(h, kids, j, c)),
        forall|c: u32| #[trigger] cur.contains_key(c) ==> cur[c] == h[c],
    ensures
        in_subtree(cur, kids[j], x) == in_subtree(h, kids[j], x),
    decreases x,
{
    let d = kids[j];
    if x == d {
        assert(in_subtree(cur, d, x));
        assert(in_subtree(h, d, x));
    } else if cur.contains_key(x) {
        assert(h.contains_key(x));
        assert(cur[x] == h[x]);
        let p = h[x].0.0;
        if p < x {
            lemma_removed_keeps_subtree_at(h, kids, j, root, cur, p);
            assert(in_subtree(cur, d, x) == in_subtree(cur, d, p));
            assert(in_subtree(h, d, x) == in_subtree(h, d, p));
        } else {
            assert(!in_subtree(cur, d, x));
            assert(!in_subtree(h, d, x));
        }
    } else {
        assert(!in_subtree(cur, d, x));
        if h.contains_key(x) {
            assert(removed_by(h, kids, j, x));
            if in_subtree(h, d, x) {
                let m = choose|m: int| 0 <= m < j && #[trigger] in_subtree(h, kids[m], x);
                lemma_subtree_comparable(h, kids[m], d, x);
                assert(kids[m] != kids[j]);
                assert(h[d].0.0 == root);
                assert(h[kids[m]].0.0 == root);
                if in_subtree(h, kids[m], d) {
                    assert(in_subtree(h, kids[m], root));
                    lemma_subtree_above_root(h, kids[m], root);
                } else {
                    assert(in_subtree(h, d, root));
                    lemma_subtree_above_root(h, d, root);
                }
            }
        } else {
            assert(!in_subtree(h, d, x));
        }
    }
}

/// The subtree of `index` is `index` itself and the subtrees of its children.
proof fn lemma_subtree_is_root_or_removed<D>(h: Map<u32, (ScopeIndex, D)>, kids: Seq<u32>, index: ScopeIndex)
    requires
        forall|c: u32| #[trigger] kids.to_set().contains(c) == (h.contains_key(c) && h[c].0 == index),
        forall|m: int| 0 <= m < kids.len() ==> h.contains_key(#[trigger] kids[m])
            && h[kids[m]].0 == index && index.0 < kids[m],
    ensures
        forall|x: u32| #[trigger] in_subtree(h, index.0, x) == (x == index.0 || removed_by(h, kids, kids.len() as int, x)),
{
    assert forall|x: u32| #[trigger] in_subtree(h, index.0, x) == (x == index.0 || removed_by(h, kids, kids.len() as int, x)) by {
        lemma_subtree_is_root_or_removed_at(h, kids, index, x);
    }
}

proof fn lemma_subtree_is_root_or_removed_at<D>(h: Map<u32, (ScopeIndex, D)>, kids: Seq<u32>, index: ScopeIndex, x: u32)
    requires
        forall|c: u32| #[trigger] kids.to_set().contains(c) == (h.contains_key(c) && h[c].0 == index),
        forall|m: int| 0 <= m < kids.len() ==> h.contains_key(#[trigger] kids[m])
            && h[kids[m]].0 == index && index.0 < kids[m],
    ensures
        in_subtree(h, index.0, x) == (x == index.0 || removed_by(h, kids, kids.len() as int, x)),
    decreases x,
{
    if x != index.0 {
        if removed_by(h, kids, kids.len() as int, x) {
            let m = choose|m: int| 0 <= m < kids.len() && #[trigger] in_subtree(h, kids[m], x);
            assert(in_subtree(h, index.0, index.0));
            assert(h[kids[m]].0.0 == index.0);
            assert(in_subtree(h, index.0, kids[m]));
            lemma_subtree_transitive(h, index.0, kids[m], x);
        }
        if in_subtree(h, index.0, x) {
            let p = h[x].0.0;
            if p == index.0 {
                assert(kids.to_set().contains(x));
                let m = choose|m: int| 0 <= m < kids.len() && kids[m] == x;
                assert(in_subtree(h, kids[m], x));
            } else {
                lemma_subtree_is_root_or_removed_at(h, kids, index, p);
                let m = choose|m: int| 0 <= m < kids.len() && #[trigger] in_subtree(h, kids[m], p);
                assert(in_subtree(h, kids[m], x));
            }
        }
    }
}

/// The graph itself, without the index of the root scope.
#[derive(Debug)]
struct ScopeGraphInternal<E> {
    last_index: ScopeIndex,
    scopes: HashMap<u32, Scope>,
    hierarchy_edges: OneToNElementsMap<Vec<ProvidesAttrEdge<E>>>,
    inheritance_edges: OneToNElementsMap<InheritsEdge>,
}

impl<E> ScopeGraphInternal<E> {
    spec fn wf(&self) -> bool {
        &&& self.hierarchy_edges.wf()
        &&& self.inheritance_edges.wf()
        &&& forall|k: u32| #[trigger]
            self.scopes@.contains_key(k) ==> k < self.last_index.0 && self.scopes@[k].data.wf()
        &&& forall|c: u32| #[trigger]
            self.hierarchy_edges@.contains_key(c) ==> c < self.last_index.0
                && self.hierarchy_edges@[c].0.0 < c
        &&& forall|c: u32| #[trigger]
            self.inheritance_edges@.contains_key(c) ==> c < self.last_index.0
                && self.inheritance_edges@[c].0.0 < c && self.inheritance_edges@[c].1.wf()
    }

    /// Every edge and every recorded parent refers to scopes in the graph.
    spec fn valid(&self) -> bool {
        &&& forall|c: u32| #[trigger]
            self.hierarchy_edges@.contains_key(c) ==> self.scopes@.contains_key(c)
                && self.scopes@.contains_key(self.hierarchy_edges@[c].0.0)
        &&& forall|p: u32| #[trigger]
            self.hierarchy_edges.recorded_parents().contains(p) ==> self.scopes@.contains_key(p)
        &&& forall|c: u32| #[trigger]
            self.inheritance_edges@.contains_key(c) ==> self.scopes@.contains_key(c)
                && self.scopes@.contains_key(self.inheritance_edges@[c].0.0)
        &&& forall|p: u32| #[trigger]
            self.inheritance_edges.recorded_parents().contains(p) ==> self.scopes@.contains_key(p)
    }

    fn new() -> (g: Self)
        ensures
            g.wf(),
            g.valid(),
            g.last_index == ScopeIndex(0),
            g.scopes@ == Map::<u32, Scope>::empty(),
            g.hierarchy_edges@.len() == 0,
            g.inheritance_edges@.len() == 0,
    {
        ScopeGraphInternal {
            last_index: ScopeIndex(0),
            scopes: HashMap::new(),
            inheritance_edges: OneToNElementsMap::new(),
            hierarchy_edges: OneToNElementsMap::new(),
        }
    }

    /// Adds `scope` under a new index. A scope created by another scope is
    /// connected to it in the hierarchy map, with no attribute edges yet.
    fn add_scope(&mut self, scope: Scope) -> (idx: ScopeIndex)
        requires
            old(self).wf(),
            old(self).last_index.0 < u32::MAX,
            scope.data.wf(),
            scope.ancestor matches Some(a) ==> a.0 < old(self).last_index.0,
        ensures
            final(self).wf(),
            idx == old(self).last_index,
            final(self).last_index.0 == old(self).last_index.0 + 1,
            !old(self).scopes@.contains_key(idx.0),
            final(self).scopes@ == old(self).scopes@.insert(idx.0, scope),
            final(self).inheritance_edges@ == old(self).inheritance_edges@,
            final(self).inheritance_edges.recorded_parents() == old(self).inheritance_edges.recorded_parents(),
            match scope.ancestor {
                Some(a) => {
                    &&& final(self).hierarchy_edges@.contains_key(idx.0)
                    &&& final(self).hierarchy_edges@[idx.0].0 == a
                    &&& final(self).hierarchy_edges@[idx.0].1@.len() == 0
                    &&& forall|c: u32| c != idx.0 ==> (#[trigger] final(self).hierarchy_edges@.contains_key(c)
                        == old(self).hierarchy_edges@.contains_key(c))
                    &&& forall|c: u32| c != idx.0 && #[trigger] old(self).hierarchy_edges@.contains_key(c)
                        ==> final(self).hierarchy_edges@[c] == old(self).hierarchy_edges@[c]
                    &&& final(self).hierarchy_edges.recorded_parents() == old(self).hierarchy_edges.recorded_parents().insert(a.0)
                },
                None => {
                    &&& final(self).hierarchy_edges@ == old(self).hierarchy_edges@
                    &&& final(self).hierarchy_edges.recorded_parents() == old(self).hierarchy_edges.recorded_parents()
                },
            },
            old(self).valid() && (scope.ancestor matches Some(a) ==> old(self).scopes@.contains_key(a.0))
                ==> final(self).valid(),
    {
        let idx = self.last_index;
        assert(!self.hierarchy_edges@.contains_key(idx.0));
        assert(!self.scopes@.contains_key(idx.0));
        let ghost scope_spec = scope;
        match scope.ancestor {
            Some(ancestor) => {
                let _ = self.hierarchy_edges.insert(idx, ancestor, Vec::new());
            },
            None => {},
        }
        self.scopes.insert(idx.0, scope);
        self.last_index.advance();
        proof {
            self.hierarchy_edges.lemma_parents_recorded();
            self.inheritance_edges.lemma_parents_recorded();
        }
        idx
    }

    proof fn lemma_children_facts(&self, index: ScopeIndex, kids: Seq<u32>)
        requires
            self.wf(),
            kids.to_set() == self.hierarchy_edges.children_spec(index),
        ensures
            forall|m: int| 0 <= m < kids.len() ==> self.hierarchy_edges@.contains_key(#[trigger] kids[m])
                && self.hierarchy_edges@[kids[m]].0 == index && index.0 < kids[m] && kids[m] < self.last_index.0,
            forall|m: int| 0 <= m < kids.len() ==> self.hierarchy_edges@.contains_key(#[trigger] kids[m])
                && self.hierarchy_edges@[kids[m]].0.0 == index.0 && index.0 < kids[m],
    {
        assert forall|m: int| 0 <= m < kids.len() implies self.hierarchy_edges@.contains_key(#[trigger] kids[m])
            && self.hierarchy_edges@[kids[m]].0 == index && index.0 < kids[m] && kids[m] < self.last_index.0 by {
            let c = kids[m];
            assert(kids.contains(c));
            assert(kids.to_set().contains(c));
            assert(self.hierarchy_edges.children_spec(index).contains(c));
        }
    }

    /// Removes the scope `index` and, recursively, every scope it created
    /// (its subtree in the hierarchy map), with all edges that touch them.
    fn remove_scope(&mut self, index: ScopeIndex)
        requires
            old(self).wf(),
        ensures
            final(self).wf(),
            final(self).last_index == old(self).last_index,
            forall|k: u32| #[trigger]
                final(self).scopes@.contains_key(k) == (old(self).scopes@.contains_key(k)
                    && !in_subtree(old(self).hierarchy_edges@, index.0, k)),
            forall|k: u32| #[trigger]
                final(self).scopes@.contains_key(k) ==> final(self).scopes@[k] == old(self).scopes@[k],
            forall|c: u32| #[trigger]
                final(self).hierarchy_edges@.contains_key(c) == (old(self).hierarchy_edges@.contains_key(c)
                    && !in_subtree(old(self).hierarchy_edges@, index.0, c)),
            forall|c: u32| #[trigger]
                final(self).hierarchy_edges@.contains_key(c) ==> final(self).hierarchy_edges@[c]
                    == old(self).hierarchy_edges@[c],
            forall|c: u32| #[trigger]
                final(self).inheritance_edges@.contains_key(c) == (old(self).inheritance_edges@.contains_key(c)
                    && !in_subtree(old(self).hierarchy_edges@, index.0, c)
                    && !in_subtree(old(self).hierarchy_edges@, index.0, old(self).inheritance_edges@[c].0.0)),
            forall|c: u32| #[trigger]
                final(self).inheritance_edges@.contains_key(c) ==> final(self).inheritance_edges@[c]
                    == old(self).inheritance_edges@[c],
            forall|p: u32| #[trigger]
                final(self).hierarchy_edges.recorded_parents().contains(p) == (
                old(self).hierarchy_edges.recorded_parents().contains(p)
                    && !in_subtree(old(self).hierarchy_edges@, index.0, p)),
            forall|p: u32| #[trigger]
                final(self).inheritance_edges.recorded_parents().contains(p) == (
                old(self).inheritance_edges.recorded_parents().contains(p)
                    && !in_subtree(old(self).hierarchy_edges@, index.0, p)),
            old(self).valid() ==> final(self).valid(),
        decreases old(self).last_index.0 - index.0,
    {
        let ghost old_self = *self;
        let ghost h0 = old_self.hierarchy_edges@;
        self.scopes.remove(&index.0);
        let descendants = self.hierarchy_edges.children_list(index);
        let ghost kids = descendants@;
        assert(kids.to_set() == old_self.hierarchy_edges.children_spec(index));
        proof {
            old_self.lemma_children_facts(index, kids);
        }
        let mut j: usize = 0;
        while j < descendants.len()
            invariant
                self.wf(),
                old_self.wf(),
                h0 == old_self.hierarchy_edges@,
                kids == descendants@,
                kids.no_duplicates(),
                kids.to_set() == old_self.hierarchy_edges.children_spec(index),
                forall|m: int| 0 <= m < kids.len() ==> h0.contains_key(#[trigger] kids[m])
                    && h0[kids[m]].0 == index && index.0 < kids[m] && kids[m] < old_self.last_index.0,
                forall|m: int| 0 <= m < kids.len() ==> h0.contains_key(#[trigger] kids[m])
                    && h0[kids[m]].0.0 == index.0 && index.0 < kids[m],
                j <= kids.len(),
                self.last_index == old_self.last_index,
                old(self).last_index == old_self.last_index,
                forall|k: u32| #[trigger]
                    self.scopes@.contains_key(k) == (old_self.scopes@.contains_key(k) && k != index.0
                        && !removed_by(h0, kids, j as int, k)),
                forall|k: u32| #[trigger]
                    self.scopes@.contains_key(k) ==> self.scopes@[k] == old_self.scopes@[k],
                forall|c: u32| #[trigger]
                    self.hierarchy_edges@.contains_key(c) == (h0.contains_key(c) && !removed_by(h0, kids, j as int, c)),
                forall|c: u32| #[trigger]
                    self.hierarchy_edges@.contains_key(c) ==> self.hierarchy_edges@[c] == h0[c],
                forall|c: u32| #[trigger]
                    self.inheritance_edges@.contains_key(c) == (old_self.inheritance_edges@.contains_key(c)
                        && !removed_by(h0, kids, j as int, c)
                        && !removed_by(h0, kids, j as int, old_self.inheritance_edges@[c].0.0)),
                forall|c: u32| #[trigger]
                    self.inheritance_edges@.contains_key(c) ==> self.inheritance_edges@[c]
                        == old_self.inheritance_edges@[c],
                forall|p: u32| #[trigger]
                    self.hierarchy_edges.recorded_parents().contains(p) == (
                    old_self.hierarchy_edges.recorded_parents().contains(p)
                        && !removed_by(h0, kids, j as int, p)),
                forall|p: u32| #[trigger]
                    self.inheritance_edges.recorded_parents().contains(p) == (
                    old_self.inheritance_edges.recorded_parents().contains(p)
                        && !removed_by(h0, kids, j as int, p)),
            decreases descendants.len() - j,
        {
            let d = descendants[j];
            assert(d == kids[j as int]);
            assert(index.0 < d && d < old_self.last_index.0);
            assert(self.last_index == old_self.last_index);
            assert(0 <= self.last_index.0 - d < old_self.last_index.0 - index.0);
            let ghost before = *self;
            proof {
                lemma_removed_keeps_subtree(h0, kids, j as int, index.0, self.hierarchy_edges@);
            }
            self.remove_scope(ScopeIndex(d));
            proof {
                lemma_removed_by_step(h0, kids, j as int);
                let jj = j as int;
                assert forall|c: u32| #[trigger] self.inheritance_edges@.contains_key(c) == (
                    old_self.inheritance_edges@.contains_key(c) && !removed_by(h0, kids, jj + 1, c)
                    && !removed_by(h0, kids, jj + 1, old_self.inheritance_edges@[c].0.0)) by {
                    if before.inheritance_edges@.contains_key(c) {
                        let p = before.inheritance_edges@[c].0.0;
                        assert(p == old_self.inheritance_edges@[c].0.0);
                        assert(in_subtree(before.hierarchy_edges@, kids[jj], c) == in_subtree(h0, kids[jj], c));
                        assert(in_subtree(before.hierarchy_edges@, kids[jj], p) == in_subtree(h0, kids[jj], p));
                    }
                }
            }
            j = j + 1;
        }
        let ghost cur_h = self.hierarchy_edges@;
        self.hierarchy_edges.remove(index);
        self.inheritance_edges.remove(index);
        proof {
            lemma_subtree_is_root_or_removed(h0, kids, index);
            let n = kids.len() as int;
            assert forall|c: u32| #[trigger] self.hierarchy_edges@.contains_key(c) == (h0.contains_key(c)
                && !in_subtree(h0, index.0, c)) by {
                if h0.contains_key(c) && !removed_by(h0, kids, n, c) && c != index.0 && h0[c].0 == index {
                    assert(old_self.hierarchy_edges.children_spec(index).contains(c));
                    assert(kids.to_set().contains(c));
                    let m = choose|m: int| 0 <= m < kids.len() && kids[m] == c;
                    assert(in_subtree(h0, kids[m], c));
                }
            }
            if old_self.valid() {
                assert forall|c: u32| #[trigger] self.hierarchy_edges@.contains_key(c) implies self.scopes@.contains_key(c)
                    && self.scopes@.contains_key(self.hierarchy_edges@[c].0.0) by {
                    let p = h0[c].0.0;
                    if in_subtree(h0, index.0, p) {
                        assert(in_subtree(h0, index.0, c));
                    }
                }
            }
        }
    }

    /// Makes scope `a` inherit from scope `b`. `a` must not inherit from any
    /// scope yet.
    fn add_inherits_edge(&mut self, a: ScopeIndex, b: ScopeIndex, edge: InheritsEdge)
        requires
            old(self).wf(),
            !old(self).inheritance_edges@.contains_key(a.0),
            b.0 < a.0,
            a.0 < old(self).last_index.0,
            edge.wf(),
        ensures
            final(self).wf(),
            final(self).last_index == old(self).last_index,
            final(self).scopes@ == old(self).scopes@,
            final(self).hierarchy_edges@ == old(self).hierarchy_edges@,
            final(self).hierarchy_edges.recorded_parents() == old(self).hierarchy_edges.recorded_parents(),
            final(self).inheritance_edges@ == old(self).inheritance_edges@.insert(a.0, (b, edge)),
            final(self).inheritance_edges.recorded_parents() == old(self).inheritance_edges.recorded_parents().insert(b.0),
            old(self).valid() && old(self).scopes@.contains_key(a.0) && old(self).scopes@.contains_key(b.0)
                ==> final(self).valid(),
    {
        let r = self.inheritance_edges.insert(a, b, edge);
        match r {
            Ok(()) => {},
            Err(_) => {
                assert(false);
            },
        }
        proof {
            self.inheritance_edges.lemma_parents_recorded();
        }
    }

    /// Adds the attribute edge `edge` from scope `a` to scope `b`, which `a`
    /// must have created. When `b` was created by no scope, nothing changes.
    fn register_scope_provides_attr(&mut self, a: ScopeIndex, b: ScopeIndex, edge: ProvidesAttrEdge<E>)
        requires
            old(self).wf(),
            old(self).hierarchy_edges@.contains_key(b.0) ==> old(self).hierarchy_edges@[b.0].0 == a,
        ensures
            final(self).wf(),
            final(self).last_index == old(self).last_index,
            final(self).scopes@ == old(self).scopes@,
            final(self).inheritance_edges@ == old(self).inheritance_edges@,
            final(self).inheritance_edges.recorded_parents() == old(self).inheritance_edges.recorded_parents(),
            final(self).hierarchy_edges.recorded_parents() == old(self).hierarchy_edges.recorded_parents(),
            old(self).hierarchy_edges@.contains_key(b.0) ==> {
                &&& final(self).hierarchy_edges@.dom() == old(self).hierarchy_edges@.dom()
                &&& final(self).hierarchy_edges@[b.0].0 == a
                &&& final(self).hierarchy_edges@[b.0].1@ == old(self).hierarchy_edges@[b.0].1@.push(edge)
                &&& forall|c: u32| c != b.0 && #[trigger] old(self).hierarchy_edges@.contains_key(c)
                    ==> final(self).hierarchy_edges@[c] == old(self).hierarchy_edges@[c]
            },
            !old(self).hierarchy_edges@.contains_key(b.0) ==> final(self).hierarchy_edges@ == old(self).hierarchy_edges@,
            old(self).valid() ==> final(self).valid(),
    {
        match self.hierarchy_edges.get_parent_edge_mut(b) {
            Some(entry) => {
                entry.1.push(edge);
            },
            None => {},
        }
        proof {
            self.hierarchy_edges.lemma_parents_recorded();
            if old(self).hierarchy_edges@.contains_key(b.0) {
                assert(self.hierarchy_edges@.dom() =~= old(self).hierarchy_edges@.dom());
            }
        }
    }

    fn scope_at(&self, index: ScopeIndex) -> (r: Option<&Scope>)
        ensures
            match r {
                Some(s) => self.scopes@.contains_key(index.0) && *s == self.scopes@[index.0],
                None => !self.scopes@.contains_key(index.0),
            },
    {
        self.scopes.get(&index.0)
    }

    fn scope_at_mut(&mut self, index: ScopeIndex) -> (r: Option<&mut Scope>)
        requires
            old(self).wf(),
        ensures
            final(self).last_index == old(self).last_index,
            final(self).hierarchy_edges == old(self).hierarchy_edges,
            final(self).inheritance_edges == old(self).inheritance_edges,
            match r {
                Some(s) => {
                    &&& old(self).scopes@.contains_key(index.0)
                    &&& *s == old(self).scopes@[index.0]
                    &&& final(self).scopes@ == old(self).scopes@.insert(index.0, *final(s))
                    &&& final(s).data.wf() ==> final(self).wf()
                },
                None => {
                    &&& !old(self).scopes@.contains_key(index.0)
                    &&& final(self).scopes@ == old(self).scopes@
                    &&& final(self).wf()
                },
            },
    {
        match self.scopes.entry(index.0) {
            Entry::Occupied(occ) => Some(occ.into_mut()),
            Entry::Vacant(_) => None,
        }
    }

    /// The scope that `index` inherits from.
    fn parent_scope_of(&self, index: ScopeIndex) -> (r: Option<ScopeIndex>)
        ensures
            r == self.inheritance_edges.parent_spec(index),
    {
        self.inheritance_edges.get_parent_of(index)
    }

    /// The scopes that inherit from `index` and reference `var_name` through
    /// the edge, each once.
    fn child_scopes_referencing(&self, index: ScopeIndex, var_name: &VarName) -> (r: Vec<ScopeIndex>)
        requires
            self.wf(),
        ensures
            r@.no_duplicates(),
            forall|c: ScopeIndex| #[trigger] r@.contains(c) == self.references_through(c, index, var_name@),
    {
        let edges = self.inheritance_edges.child_scope_edges(index);
        let mut result: Vec<ScopeIndex> = Vec::new();
        let mut i: usize = 0;
        while i < edges.len()
            invariant
                self.wf(),
                0 <= i <= edges@.len(),
                edges@.len() == self.inheritance_edges.children_spec(index).len(),
                forall|k: int|
                    #![trigger edges@[k]]
                    0 <= k < edges@.len() ==> self.inheritance_edges.children_spec(index).contains(edges@[k].0.0)
                        && *edges@[k].1 == self.inheritance_edges@[edges@[k].0.0].1,
                forall|a: int, b: int| 0 <= a < b < edges@.len() ==> #[trigger] edges@[a].0 != #[trigger] edges@[b].0,
                forall|c: u32| #[trigger]
                    self.inheritance_edges.children_spec(index).contains(c) ==> exists|k: int|
                        0 <= k < edges@.len() && #[trigger] edges@[k].0.0 == c,
                result@.no_duplicates(),
                forall|c: ScopeIndex| #[trigger] result@.contains(c) == exists|k: int|
                    0 <= k < i && #[trigger] edges@[k].0 == c && self.references_through(c, index, var_name@),
            decreases edges.len() - i,
        {
            let (child, edge) = edges[i];
            let ghost ii = i as int;
            let ghost before = result@;
            proof {
                assert(edges@[ii].0 == child);
                assert(self.inheritance_edges.children_spec(index).contains(child.0));
                assert(self.inheritance_edges@.contains_key(child.0));
            }
            let refs = edge.references(var_name);
            if refs {
                proof {
                    assert(!result@.contains(child)) by {
                        if result@.contains(child) {
                            let k = choose|k: int| 0 <= k < ii && #[trigger] edges@[k].0 == child && self.references_through(child, index, var_name@);
                            assert(edges@[k].0 != edges@[ii].0);
                        }
                    }
                }
                result.push(child);
            }
            proof {
                assert(refs == self.references_through(child, index, var_name@));
                assert forall|c: ScopeIndex| #[trigger] result@.contains(c) == exists|k: int|
                    0 <= k < ii + 1 && #[trigger] edges@[k].0 == c && self.references_through(c, index, var_name@) by {
                    if exists|k: int| 0 <= k < ii + 1 && #[trigger] edges@[k].0 == c && self.references_through(c, index, var_name@) {
                        let k = choose|k: int| 0 <= k < ii + 1 && #[trigger] edges@[k].0 == c && self.references_through(c, index, var_name@);
                        if k < ii {
                            assert(before.contains(c));
                            let t = choose|t: int| 0 <= t < before.len() && before[t] == c;
                            assert(result@[t] == c);
                        } else {
                            assert(result@[result@.len() - 1] == c);
                        }
                    }
                    if result@.contains(c) {
                        let t = choose|t: int| 0 <= t < result@.len() && result@[t] == c;
                        if t < before.len() {
                            assert(before[t] == c);
                            assert(before.contains(c));
                        } else {
                            assert(c == child);
                            assert(edges@[ii].0 == c);
                        }
                    }
                }
            }
            i = i + 1;
        }
        proof {
            assert forall|c: ScopeIndex| #[trigger] result@.contains(c) == self.references_through(c, index, var_name@) by {
                if self.references_through(c, index, var_name@) {
                    assert(self.inheritance_edges.children_spec(index).contains(c.0));
                    let k = choose|k: int| 0 <= k < edges@.len() && #[trigger] edges@[k].0.0 == c.0;
                    assert(edges@[k].0 == c);
                }
            }
        }
        result
    }

    /// `child` inherits from `index` and references `var` through the edge.
    spec fn references_through(&self, child: ScopeIndex, index: ScopeIndex, var: Seq<char>) -> bool {
        &&& self.inheritance_edges@.contains_key(child.0)
        &&& self.inheritance_edges@[child.0].0 == index
        &&& self.inheritance_edges@[child.0].1.references_spec().contains(var)
    }

    /// Records that scope `child_scope`, which inherits from `parent_scope`,
    /// references `var_name` through that edge.
    fn add_reference_to_inherits_edge(&mut self, child_scope: ScopeIndex, parent_scope: ScopeIndex, var_name: VarName) -> (r: Result<(), ScopeGraphError>)
        requires
            old(self).wf(),
        ensures
            final(self).wf(),
            final(self).last_index == old(self).last_index,
            final(self).scopes@ == old(self).scopes@,
            final(self).hierarchy_edges == old(self).hierarchy_edges,
            final(self).inheritance_edges.recorded_parents() == old(self).inheritance_edges.recorded_parents(),
            final(self).inheritance_edges@.dom() == old(self).inheritance_edges@.dom(),
            forall|c: u32| #[trigger] final(self).inheritance_edges@.contains_key(c) ==> final(self).inheritance_edges@[c].0
                == old(self).inheritance_edges@[c].0,
            forall|c: u32| c != child_scope.0 && #[trigger] final(self).inheritance_edges@.contains_key(c)
                ==> final(self).inheritance_edges@[c] == old(self).inheritance_edges@[c],
            !old(self).inheritance_edges@.contains_key(child_scope.0) ==> (r matches Err(ScopeGraphError::NoParentScope { child, parent })
                && child == child_scope && parent == parent_scope),
            old(self).inheritance_edges@.contains_key(child_scope.0) && old(self).inheritance_edges@[child_scope.0].0 != parent_scope
                ==> (r matches Err(ScopeGraphError::WrongParentScope { child, parent, actual }) && child == child_scope
                && parent == parent_scope && actual == old(self).inheritance_edges@[child_scope.0].0),
            old(self).inheritance_edges@.contains_key(child_scope.0) && old(self).inheritance_edges@[child_scope.0].0 == parent_scope
                ==> r is Ok && final(self).inheritance_edges@[child_scope.0].1.references_spec()
                == old(self).inheritance_edges@[child_scope.0].1.references_spec().insert(var_name@),
            r is Err ==> final(self).inheritance_edges@ == old(self).inheritance_edges@,
            old(self).valid() ==> final(self).valid(),
    {
        match self.inheritance_edges.get_parent_edge_mut(child_scope) {
            None => Err(ScopeGraphError::NoParentScope { child: child_scope, parent: parent_scope }),
            Some(entry) => {
                if entry.0 != parent_scope {
                    let actual = entry.0;
                    Err(ScopeGraphError::WrongParentScope { child: child_scope, parent: parent_scope, actual })
                } else {
                    proof {
                        assert(old(self).wf());
                        assert(entry.1.wf());
                    }
                    entry.1.add_reference(var_name);
                    Ok(())
                }
            },
        }
    }

    /// `edge` is an attribute edge from `index` to its child `child` whose
    /// expression references `var`.
    spec fn provides_using(&self, index: ScopeIndex, var: Seq<char>, child: ScopeIndex, edge: ProvidesAttrEdge<E>) -> bool {
        &&& self.hierarchy_edges@.contains_key(child.0)
        &&& self.hierarchy_edges@[child.0].0 == index
        &&& self.hierarchy_edges@[child.0].1@.contains(edge)
        &&& refs_contain(edge.references@, var)
    }

    /// The scopes that are provided some attribute referencing `var_name` by
    /// the scope `index`, with the edge of that attribute.
    fn scopes_getting_attr_using(&self, index: ScopeIndex, var_name: &VarName) -> (r: Vec<(ScopeIndex, &ProvidesAttrEdge<E>)>)
        requires
            self.wf(),
        ensures
            forall|i: int| #![trigger r@[i]] 0 <= i < r@.len() ==> self.provides_using(index, var_name@, r@[i].0, *r@[i].1),
            forall|c: ScopeIndex, e: ProvidesAttrEdge<E>| #[trigger] self.provides_using(index, var_name@, c, e)
                ==> exists|i: int| 0 <= i < r@.len() && #[trigger] r@[i] == (c, &e),
    {
        let edge_mappings = self.hierarchy_edges.child_scope_edges(index);
        let mut result: Vec<(ScopeIndex, &ProvidesAttrEdge<E>)> = Vec::new();
        let mut i: usize = 0;
        while i < edge_mappings.len()
            invariant
                self.wf(),
                0 <= i <= edge_mappings@.len(),
                forall|k: int|
                    #![trigger edge_mappings@[k]]
                    0 <= k < edge_mappings@.len() ==> self.hierarchy_edges.children_spec(index).contains(edge_mappings@[k].0.0)
                        && *edge_mappings@[k].1 == self.hierarchy_edges@[edge_mappings@[k].0.0].1,
                forall|c: u32| #[trigger]
                    self.hierarchy_edges.children_spec(index).contains(c) ==> exists|k: int|
                        0 <= k < edge_mappings@.len() && #[trigger] edge_mappings@[k].0.0 == c,
                forall|t: int| #![trigger result@[t]] 0 <= t < result@.len() ==> self.provides_using(index, var_name@, result@[t].0, *result@[t].1),
                forall|k: int, c: ScopeIndex, e: ProvidesAttrEdge<E>|
                    0 <= k < i && #[trigger] edge_mappings@[k].0 == c && #[trigger] self.provides_using(index, var_name@, c, e)
                    ==> exists|t: int| 0 <= t < result@.len() && #[trigger] result@[t] == (c, &e),
            decreases edge_mappings.len() - i,
        {
            let (child, edges) = edge_mappings[i];
            let ghost ii = i as int;
            let ghost before = result@;
            proof {
                assert(edge_mappings@[ii].0 == child);
                assert(self.hierarchy_edges.children_spec(index).contains(child.0));
            }
            let mut k: usize = 0;
            while k < edges.len()
                invariant
                    self.wf(),
                    self.hierarchy_edges@.contains_key(child.0),
                    self.hierarchy_edges@[child.0].0 == index,
                    *edges == self.hierarchy_edges@[child.0].1,
                    0 <= k <= edges@.len(),
                    before.len() <= result@.len(),
                    forall|t: int| 0 <= t < before.len() ==> #[trigger] result@[t] == before[t],
                    forall|t: int| #![trigger result@[t]] 0 <= t < result@.len() ==> self.provides_using(index, var_name@, result@[t].0, *result@[t].1),
                    forall|q: int| 0 <= q < k && refs_contain((#[trigger] edges@[q]).references@, var_name@)
                        ==> exists|t: int| 0 <= t < result@.len() && #[trigger] result@[t] == (child, &edges@[q]),
                decreases edges.len() - k,
            {
                let edge = &edges[k];
                let ghost before2 = result@;
                if edge.references_var(var_name) {
                    proof {
                        assert(edges@.contains(*edge)) by {
                            assert(edges@[k as int] == *edge);
                        }
                    }
                    result.push((child, edge));
                    proof {
                        assert(result@[result@.len() - 1] == (child, &edges@[k as int]));
                    }
                }
                proof {
                    let kk = k as int;
                    assert forall|q: int| 0 <= q < kk + 1 && refs_contain((#[trigger] edges@[q]).references@, var_name@)
                        implies exists|t: int| 0 <= t < result@.len() && #[trigger] result@[t] == (child, &edges@[q]) by {
                        if q < kk {
                            let t = choose|t: int| 0 <= t < before2.len() && #[trigger] before2[t] == (child, &edges@[q]);
                            assert(result@[t] == (child, &edges@[q]));
                        } else {
                            assert(result@[result@.len() - 1] == (child, &edges@[q]));
                        }
                    }
                }
                k = k + 1;
            }
            proof {
                assert forall|kk: int, c: ScopeIndex, e: ProvidesAttrEdge<E>|
                    0 <= kk < ii + 1 && #[trigger] edge_mappings@[kk].0 == c && #[trigger] self.provides_using(index, var_name@, c, e)
                    implies exists|t: int| 0 <= t < result@.len() && #[trigger] result@[t] == (c, &e) by {
                    if kk < ii {
                        let t = choose|t: int| 0 <= t < before.len() && #[trigger] before[t] == (c, &e);
                        assert(result@[t] == (c, &e));
                    } else {
                        assert(c == child);
                        let q = choose|q: int| 0 <= q < edges@.len() && edges@[q] == e;
                        assert(refs_contain((edges@[q]).references@, var_name@));
                    }
                }
            }
            i = i + 1;
        }
        proof {
            assert forall|c: ScopeIndex, e: ProvidesAttrEdge<E>| #[trigger] self.provides_using(index, var_name@, c, e)
                implies exists|i: int| 0 <= i < result@.len() && #[trigger] result@[i] == (c, &e) by {
                assert(self.hierarchy_edges.children_spec(index).contains(c.0));
                let k = choose|k: int| 0 <= k < edge_mappings@.len() && #[trigger] edge_mappings@[k].0.0 == c.0;
                assert(edge_mappings@[k].0 == c);
            }
        }
        result
    }

    /// Checks that every edge of both maps, and every recorded parent, refers
    /// to scopes in the graph.
    fn validate(&self) -> (r: Result<(), ScopeGraphError>)
        requires
            self.wf(),
        ensures
            r is Ok <==> self.valid(),
    {
        let edges = self.hierarchy_edges.edge_list();
        let mut i: usize = 0;
        while i < edges.len()
            invariant
                0 <= i <= edges@.len(),
                forall|k: int| #![trigger edges@[k]] 0 <= k < edges@.len() ==> self.hierarchy_edges@.contains_key(edges@[k].0) && self.hierarchy_edges@[edges@[k].0].0 == edges@[k].1,
                forall|k: int| #![trigger edges@[k]] 0 <= k < i ==> self.scopes@.contains_key(edges@[k].0) && self.scopes@.contains_key(edges@[k].1.0),
            decreases edges.len() - i,
        {
            let (child, parent) = edges[i];
            proof {
                assert(edges@[i as int] == (child, parent));
                assert(self.hierarchy_edges@.contains_key(child));
            }
            if !self.scopes.contains_key(&child) {
                return Err(ScopeGraphError::HierarchyKeyNotInGraph(ScopeIndex(child)));
            }
            if !self.scopes.contains_key(&parent.0) {
                return Err(ScopeGraphError::HierarchyValueNotInGraph(parent));
            }
            i = i + 1;
        }
        let parents = self.hierarchy_edges.recorded_parent_list();
        let mut i: usize = 0;
        while i < parents.len()
            invariant
                0 <= i <= parents@.len(),
                parents@.to_set() == self.hierarchy_edges.recorded_parents(),
                forall|k: int| 0 <= k < i ==> #[trigger] self.scopes@.contains_key(parents@[k]),
            decreases parents.len() - i,
        {
            let parent = parents[i];
            if !self.scopes.contains_key(&parent) {
                proof {
                    assert(parents@.to_set().contains(parent));
                }
                return Err(ScopeGraphError::HierarchyKeyNotInGraph(ScopeIndex(parent)));
            }
            i = i + 1;
        }
        let edges2 = self.inheritance_edges.edge_list();
        let mut i: usize = 0;
        while i < edges2.len()
            invariant
                0 <= i <= edges2@.len(),
                forall|k: int| #![trigger edges2@[k]] 0 <= k < edges2@.len() ==> self.inheritance_edges@.contains_key(edges2@[k].0) && self.inheritance_edges@[edges2@[k].0].0 == edges2@[k].1,
                forall|k: int| #![trigger edges2@[k]] 0 <= k < i ==> self.scopes@.contains_key(edges2@[k].0) && self.scopes@.contains_key(edges2@[k].1.0),
            decreases edges2.len() - i,
        {
            let (child, parent) = edges2[i];
            proof {
                assert(edges2@[i as int] == (child, parent));
                assert(self.inheritance_edges@.contains_key(child));
            }
            if !self.scopes.contains_key(&child) {
                return Err(ScopeGraphError::InheritsKeyNotInGraph(ScopeIndex(child)));
            }
            if !self.scopes.contains_key(&parent.0) {
                return Err(ScopeGraphError::InheritsValueNotInGraph(parent));
            }
            i = i + 1;
        }
        let parents2 = self.inheritance_edges.recorded_parent_list();
        let mut i: usize = 0;
        while i < parents2.len()
            invariant
                0 <= i <= parents2@.len(),
                parents2@.to_set() == self.inheritance_edges.recorded_parents(),
                forall|k: int| 0 <= k < i ==> #[trigger] self.scopes@.contains_key(parents2@[k]),
            decreases parents2.len() - i,
        {
            let parent = parents2[i];
            if !self.scopes.contains_key(&parent) {
                proof {
                    assert(parents2@.to_set().contains(parent));
                }
                return Err(ScopeGraphError::InheritsKeyNotInGraph(ScopeIndex(parent)));
            }
            i = i + 1;
        }
        proof {
            assert forall|c: u32| #[trigger] self.hierarchy_edges@.contains_key(c) implies self.scopes@.contains_key(c)
                && self.scopes@.contains_key(self.hierarchy_edges@[c].0.0) by {
                let k = choose|k: int| 0 <= k < edges@.len() && #[trigger] edges@[k].0 == c;
                assert(edges@[k].0 == c);
            }
            assert forall|p: u32| #[trigger] self.hierarchy_edges.recorded_parents().contains(p) implies self.scopes@.contains_key(p) by {
                assert(parents@.to_set().contains(p));
                let k = choose|k: int| 0 <= k < parents@.len() && parents@[k] == p;
            }
            assert forall|c: u32| #[trigger] self.inheritance_edges@.contains_key(c) implies self.scopes@.contains_key(c)
                && self.scopes@.contains_key(self.inheritance_edges@[c].0.0) by {
                let k = choose|k: int| 0 <= k < edges2@.len() && #[trigger] edges2@[k].0 == c;
                assert(edges2@[k].0 == c);
            }
            assert forall|p: u32| #[trigger] self.inheritance_edges.recorded_parents().contains(p) implies self.scopes@.contains_key(p) by {
                assert(parents2@.to_set().contains(p));
                let k = choose|k: int| 0 <= k < parents2@.len() && parents2@[k] == p;
            }
        }
        Ok(())
    }

    /// The closest scope, starting at `index` and following the inheritance
    /// edges, that defines `var`.
    spec fn defining_scope(&self, index: ScopeIndex, var: Seq<char>) -> Option<ScopeIndex>
        decreases index.0,
    {
        if !self.scopes@.contains_key(index.0) {
            None
        } else if self.scopes@[index.0].data@.contains_key(var) {
            Some(index)
        } else {
            match self.inheritance_edges.parent_spec(index) {
                Some(p) => if p.0 < index.0 {
                    self.defining_scope(p, var)
                } else {
                    None
                },
                None => None,
            }
        }
    }

    /// The two graphs agree on the scopes and inheritance edges of the
    /// indices up to `bound`.
    spec fn agree_below(&self, other: &Self, bound: u32) -> bool {
        &&& forall|k: u32| k <= bound ==> (#[trigger] self.scopes@.contains_key(k) == other.scopes@.contains_key(k))
        &&& forall|k: u32| k <= bound && #[trigger] self.scopes@.contains_key(k) ==> self.scopes@[k].data@ == other.scopes@[k].data@
        &&& forall|k: u32| k <= bound ==> (#[trigger] self.inheritance_edges@.contains_key(k) == other.inheritance_edges@.contains_key(k))
        &&& forall|k: u32| k <= bound && #[trigger] self.inheritance_edges@.contains_key(k) ==> self.inheritance_edges@[k].0 == other.inheritance_edges@[k].0
    }

    proof fn lemma_agree_below(&self, other: &Self, bound: u32, index: ScopeIndex, var: Seq<char>)
        requires
            self.agree_below(other, bound),
            index.0 <= bound,
        ensures
            self.chain_end(index, var) == other.chain_end(index, var),
            self.defining_scope(index, var) == other.defining_scope(index, var),
            self.defining_scope(index, var) matches Some(d) ==> self.scopes@[d.0].data@[var] == other.scopes@[d.0].data@[var],
            forall|c: u32| #[trigger] self.walked(index, var, c) == other.walked(index, var, c),
        decreases index.0,
    {
        if self.inheritance_edges@.contains_key(index.0) {
            let p = self.inheritance_edges@[index.0].0;
            if p.0 < index.0 {
                self.lemma_agree_below(other, bound, p, var);
            }
            assert forall|c: u32| #[trigger] self.walked(index, var, c) == other.walked(index, var, c) by {
                if p.0 < index.0 {
                    assert(self.walked(p, var, c) == other.walked(p, var, c));
                }
            }
        }
        self.lemma_defining_scope_defines(index, var);
    }

    proof fn lemma_defining_scope_defines(&self, index: ScopeIndex, var: Seq<char>)
        ensures
            self.defining_scope(index, var) matches Some(d) ==> self.scopes@.contains_key(d.0)
                && self.scopes@[d.0].data@.contains_key(var),
        decreases index.0,
    {
        if self.scopes@.contains_key(index.0) && !self.scopes@[index.0].data@.contains_key(var) {
            match self.inheritance_edges.parent_spec(index) {
                Some(p) => if p.0 < index.0 {
                    self.lemma_defining_scope_defines(p, var);
                },
                None => {},
            }
        }
    }

    /// Finds the closest scope, starting at `index` and following the
    /// inheritance edges, that defines `var_name`.
    fn find_scope_with_variable(&self, index: ScopeIndex, var_name: &VarName) -> (r: Option<ScopeIndex>)
        requires
            self.wf(),
        ensures
            r == self.defining_scope(index, var_name@),
    {
        let mut cur = index;
        loop
            invariant
                self.wf(),
                self.defining_scope(cur, var_name@) == self.defining_scope(index, var_name@),
            decreases cur.0,
        {
            match self.scopes.get(&cur.0) {
                None => {
                    return None;
                },
                Some(scope) => {
                    if scope.data.contains_key(var_name) {
                        return Some(cur);
                    }
                    match self.inheritance_edges.get_parent_of(cur) {
                        None => {
                            return None;
                        },
                        Some(p) => {
                            assert(self.inheritance_edges@.contains_key(cur.0));
                            cur = p;
                        },
                    }
                },
            }
        }
    }

    /// Where the walk for `var` from `index` along the inheritance edges ends.
    spec fn chain_end(&self, index: ScopeIndex, var: Seq<char>) -> ChainEnd
        decreases index.0,
    {
        if !self.scopes@.contains_key(index.0) {
            ChainEnd::Missing(index)
        } else if self.scopes@[index.0].data@.contains_key(var) {
            ChainEnd::Defined(index)
        } else {
            match self.inheritance_edges.parent_spec(index) {
                Some(p) => if p.0 < index.0 {
                    self.chain_end(p, var)
                } else {
                    ChainEnd::Orphan
                },
                None => ChainEnd::Orphan,
            }
        }
    }

    /// The walk for `var` from `index` passes over the inheritance edge of
    /// `c`: `c` is on the walk and neither defines `var` nor ends it.
    spec fn walked(&self, index: ScopeIndex, var: Seq<char>, c: u32) -> bool
        decreases index.0,
    {
        &&& self.scopes@.contains_key(index.0)
        &&& !self.scopes@[index.0].data@.contains_key(var)
        &&& self.inheritance_edges@.contains_key(index.0)
        &&& self.inheritance_edges@[index.0].0.0 < index.0
        &&& (c == index.0 || self.walked(self.inheritance_edges@[index.0].0, var, c))
    }

    /// The two graphs have the same scopes and the same inheritance structure;
    /// they may differ in the variables referenced through the edges.
    spec fn same_chains(&self, other: &Self) -> bool {
        &&& self.scopes@ == other.scopes@
        &&& self.inheritance_edges@.dom() == other.inheritance_edges@.dom()
        &&& forall|c: u32| #[trigger] self.inheritance_edges@.contains_key(c)
            ==> self.inheritance_edges@[c].0 == other.inheritance_edges@[c].0
    }

    proof fn lemma_same_chains(&self, other: &Self, index: ScopeIndex, var: Seq<char>)
        requires
            self.same_chains(other),
        ensures
            self.chain_end(index, var) == other.chain_end(index, var),
            self.defining_scope(index, var) == other.defining_scope(index, var),
            forall|c: u32| #[trigger] self.walked(index, var, c) == other.walked(index, var, c),
        decreases index.0,
    {
        if self.inheritance_edges@.contains_key(index.0) {
            let p = self.inheritance_edges@[index.0].0;
            assert(other.inheritance_edges@.contains_key(index.0));
            assert(other.inheritance_edges@[index.0].0 == p);
            if p.0 < index.0 {
                self.lemma_same_chains(other, p, var);
            }
            assert forall|c: u32| #[trigger] self.walked(index, var, c) == other.walked(index, var, c) by {
                if p.0 < index.0 {
                    assert(self.walked(p, var, c) == other.walked(p, var, c));
                }
            }
        } else {
            assert(!other.inheritance_edges@.contains_key(index.0));
        }
    }

    proof fn lemma_chain_end_defining(&self, index: ScopeIndex, var: Seq<char>)
        ensures
            self.defining_scope(index, var) is Some <==> self.chain_end(index, var) is Defined,
            self.chain_end(index, var) matches ChainEnd::Defined(d) ==> self.defining_scope(index, var) == Some(d),
        decreases index.0,
    {
        if self.scopes@.contains_key(index.0) && !self.scopes@[index.0].data@.contains_key(var) {
            match self.inheritance_edges.parent_spec(index) {
                Some(p) => if p.0 < index.0 {
                    self.lemma_chain_end_defining(p, var);
                },
                None => {},
            }
        }
    }

    /// Registers that `scope_index` references `var_name`: every inheritance
    /// edge that the walk for it passes over records the variable.
    fn register_scope_referencing_variable(&mut self, scope_index: ScopeIndex, var_name: VarName) -> (r: Result<(), ScopeGraphError>)
        requires
            old(self).wf(),
        ensures
            final(self).wf(),
            final(self).same_chains(old(self)),
            final(self).last_index == old(self).last_index,
            final(self).hierarchy_edges == old(self).hierarchy_edges,
            final(self).inheritance_edges.recorded_parents() == old(self).inheritance_edges.recorded_parents(),
            forall|c: u32| #[trigger] final(self).inheritance_edges@.contains_key(c) ==>
                final(self).inheritance_edges@[c].1.references_spec() == if old(self).walked(scope_index, var_name@, c) {
                    old(self).inheritance_edges@[c].1.references_spec().insert(var_name@)
                } else {
                    old(self).inheritance_edges@[c].1.references_spec()
                },
            match old(self).chain_end(scope_index, var_name@) {
                ChainEnd::Defined(_) => r is Ok,
                ChainEnd::Missing(s) => r matches Err(ScopeGraphError::ScopeNotInGraph(t)) && t == s,
                ChainEnd::Orphan => r matches Err(ScopeGraphError::VariableNotInScope(v)) && v == var_name,
            },
            old(self).valid() ==> final(self).valid(),
        decreases scope_index.0,
    {
        let contains = match self.scope_at(scope_index) {
            None => {
                return Err(ScopeGraphError::ScopeNotInGraph(scope_index));
            },
            Some(scope) => scope.data.contains_key(&var_name),
        };
        if !contains {
            let parent_scope = match self.parent_scope_of(scope_index) {
                None => {
                    return Err(ScopeGraphError::VariableNotInScope(var_name));
                },
                Some(p) => p,
            };
            let ghost before = *self;
            assert(self.inheritance_edges@.contains_key(scope_index.0));
            let added = self.add_reference_to_inherits_edge(scope_index, parent_scope, var_name.copy());
            assert(added is Ok);
            proof {
                self.lemma_same_chains(&before, parent_scope, var_name@);
            }
            let ghost middle = *self;
            let r = self.register_scope_referencing_variable(parent_scope, var_name);
            proof {
                assert forall|c: u32| #[trigger] self.inheritance_edges@.contains_key(c) implies
                    self.inheritance_edges@[c].1.references_spec() == if before.walked(scope_index, var_name@, c) {
                        before.inheritance_edges@[c].1.references_spec().insert(var_name@)
                    } else {
                        before.inheritance_edges@[c].1.references_spec()
                    } by {
                    assert(middle.walked(parent_scope, var_name@, c) == before.walked(parent_scope, var_name@, c));
                    if c == scope_index.0 {
                        if before.walked(parent_scope, var_name@, c) {
                            lemma_walked_below(&before, parent_scope, var_name@, c);
                        }
                    }
                }
            }
            return r;
        }
        Ok(())
    }

    /// Registers that `scope_index` references each variable of `vars`, all
    /// of which it can see.
    fn register_references(&mut self, scope_index: ScopeIndex, vars: &Vec<VarName>)
        requires
            old(self).wf(),
            forall|j: int| 0 <= j < vars@.len() ==> old(self).defining_scope(scope_index, (#[trigger] vars@[j])@) is Some,
        ensures
            final(self).wf(),
            final(self).same_chains(old(self)),
            final(self).last_index == old(self).last_index,
            final(self).hierarchy_edges == old(self).hierarchy_edges,
            final(self).inheritance_edges.recorded_parents() == old(self).inheritance_edges.recorded_parents(),
            forall|c: u32| #[trigger] final(self).inheritance_edges@.contains_key(c) ==>
                final(self).inheritance_edges@[c].1.references_spec() == old(self).inheritance_edges@[c].1.references_spec().union(
                    Set::new(|v: Seq<char>| refs_contain(vars@, v) && old(self).walked(scope_index, v, c))),
            old(self).valid() ==> final(self).valid(),
    {
        let ghost g0 = *self;
        let mut j: usize = 0;
        while j < vars.len()
            invariant
                self.wf(),
                g0 == *old(self),
                0 <= j <= vars@.len(),
                forall|jx: int| 0 <= jx < vars@.len() ==> g0.defining_scope(scope_index, (#[trigger] vars@[jx])@) is Some,
                self.same_chains(&g0),
                self.last_index == g0.last_index,
                self.hierarchy_edges == g0.hierarchy_edges,
                self.inheritance_edges.recorded_parents() == g0.inheritance_edges.recorded_parents(),
                forall|c: u32| #[trigger] self.inheritance_edges@.contains_key(c) ==> self.inheritance_edges@[c].1.references_spec()
                    == g0.inheritance_edges@[c].1.references_spec().union(Set::new(|v: Seq<char>|
                        refs_contain(vars@.take(j as int), v) && g0.walked(scope_index, v, c))),
                g0.valid() ==> self.valid(),
            decreases vars.len() - j,
        {
            let var = vars[j].copy();
            let ghost gb = *self;
            proof {
                assert(vars@[j as int] == var);
                gb.lemma_same_chains(&g0, scope_index, var@);
                g0.lemma_chain_end_defining(scope_index, var@);
            }
            let res = self.register_scope_referencing_variable(scope_index, var);
            assert(res is Ok);
            proof {
                let jj = j as int;
                let w = vars@[jj]@;
                assert(vars@.take(jj + 1) =~= vars@.take(jj).push(vars@[jj]));
                assert forall|v: Seq<char>| refs_contain(vars@.take(jj + 1), v) <==> (refs_contain(vars@.take(jj), v) || v == w) by {
                    if refs_contain(vars@.take(jj + 1), v) {
                        let t = choose|t: int| 0 <= t < vars@.take(jj + 1).len() && #[trigger] vars@.take(jj + 1)[t]@ == v;
                        if t < jj {
                            assert(vars@.take(jj)[t]@ == v);
                        }
                    }
                    if refs_contain(vars@.take(jj), v) {
                        let t = choose|t: int| 0 <= t < vars@.take(jj).len() && #[trigger] vars@.take(jj)[t]@ == v;
                        assert(vars@.take(jj + 1)[t]@ == v);
                    }
                    if v == w {
                        assert(vars@.take(jj + 1)[jj]@ == v);
                    }
                }
                assert forall|c: u32| #[trigger] self.inheritance_edges@.contains_key(c) implies self.inheritance_edges@[c].1.references_spec()
                    == g0.inheritance_edges@[c].1.references_spec().union(Set::new(|v: Seq<char>|
                        refs_contain(vars@.take(jj + 1), v) && g0.walked(scope_index, v, c))) by {
                    assert(gb.inheritance_edges@.contains_key(c));
                    assert(gb.walked(scope_index, w, c) == g0.walked(scope_index, w, c));
                    let after = self.inheritance_edges@[c].1.references_spec();
                    let mid = gb.inheritance_edges@[c].1.references_spec();
                    let base = g0.inheritance_edges@[c].1.references_spec();
                    assert forall|v: Seq<char>| after.contains(v) <==> (base.contains(v)
                        || (refs_contain(vars@.take(jj + 1), v) && g0.walked(scope_index, v, c))) by {
                        assert(mid.contains(v) <==> (base.contains(v)
                            || (refs_contain(vars@.take(jj), v) && g0.walked(scope_index, v, c))));
                    }
                    assert(after =~= base.union(Set::new(|v: Seq<char>|
                        refs_contain(vars@.take(jj + 1), v) && g0.walked(scope_index, v, c))));
                }
            }
            j = j + 1;
        }
        proof {
            assert(vars@.take(vars@.len() as int) =~= vars@);
        }
    }

    /// Removes all scopes and edges. The indices handed out so far stay used.
    fn clear(&mut self)
        requires
            old(self).wf(),
        ensures
            final(self).wf(),
            final(self).valid(),
            final(self).last_index == old(self).last_index,
            final(self).scopes@ == Map::<u32, Scope>::empty(),
            final(self).hierarchy_edges@ == Map::<u32, (ScopeIndex, Vec<ProvidesAttrEdge<E>>)>::empty(),
            final(self).inheritance_edges@ == Map::<u32, (ScopeIndex, InheritsEdge)>::empty(),
    {
        self.scopes.clear();
        self.inheritance_edges.clear();
        self.hierarchy_edges.clear();
    }
}

/// Some listener of `ls` needs `var`.
pub open spec fn listens_to(ls: Seq<Listener>, var: Seq<char>) -> bool {
    exists|i: int| 0 <= i < ls.len() && refs_contain((#[trigger] ls[i]).needed_variables@, var)
}

impl<E> ScopeGraphInternal<E> {
    /// `c` is a scope of the graph on the walk from `index` along the
    /// inheritance edges.
    spec fn on_walk(&self, index: ScopeIndex, c: u32) -> bool
        decreases index.0,
    {
        &&& self.scopes@.contains_key(index.0)
        &&& (c == index.0 || (self.inheritance_edges@.contains_key(index.0)
            && self.inheritance_edges@[index.0].0.0 < index.0
            && self.on_walk(self.inheritance_edges@[index.0].0, c)))
    }

    proof fn lemma_on_walk_below(&self, index: ScopeIndex, c: u32)
        requires
            self.on_walk(index, c),
        ensures
            c <= index.0,
        decreases index.0,
    {
        if c != index.0 {
            self.lemma_on_walk_below(self.inheritance_edges@[index.0].0, c);
        }
    }

    /// `x` is a scope of the graph that is `root` or was created, directly or
    /// not, by `root`, with every scope in between in the graph.
    spec fn live_below(&self, root: u32, x: u32) -> bool
        decreases x,
    {
        &&& self.scopes@.contains_key(x)
        &&& (x == root || (self.hierarchy_edges@.contains_key(x) && self.hierarchy_edges@[x].0.0 < x
            && self.live_below(root, self.hierarchy_edges@[x].0.0)))
    }

    /// Some listener of a scope below `root` needs `var`.
    spec fn used_below(&self, root: u32, var: Seq<char>) -> bool {
        exists|x: u32| #[trigger] self.live_below(root, x) && listens_to(self.scopes@[x].listeners@, var)
    }

    proof fn lemma_live_below_in_subtree(&self, root: u32, x: u32)
        requires
            self.live_below(root, x),
        ensures
            in_subtree(self.hierarchy_edges@, root, x),
            self.scopes@.contains_key(x),
        decreases x,
    {
        if x != root {
            self.lemma_live_below_in_subtree(root, self.hierarchy_edges@[x].0.0);
        }
    }

    proof fn lemma_subtree_live_below(&self, root: u32, x: u32)
        requires
            self.valid(),
            in_subtree(self.hierarchy_edges@, root, x),
            self.scopes@.contains_key(x),
        ensures
            self.live_below(root, x),
        decreases x,
    {
        if x != root {
            self.lemma_subtree_live_below(root, self.hierarchy_edges@[x].0.0);
        }
    }

    /// The two graphs have the same scopes, each defining the same variables,
    /// and the same inheritance edges; the values may differ.
    spec fn same_shape(&self, other: &Self) -> bool {
        &&& self.scopes@.dom() == other.scopes@.dom()
        &&& forall|k: u32| #[trigger] self.scopes@.contains_key(k) ==> self.scopes@[k].data@.dom() == other.scopes@[k].data@.dom()
        &&& self.inheritance_edges@.dom() == other.inheritance_edges@.dom()
        &&& forall|c: u32| #[trigger] self.inheritance_edges@.contains_key(c)
            ==> self.inheritance_edges@[c].0 == other.inheritance_edges@[c].0
    }

    proof fn lemma_same_shape(&self, other: &Self, index: ScopeIndex, var: Seq<char>)
        requires
            self.same_shape(other),
        ensures
            self.defining_scope(index, var) == other.defining_scope(index, var),
        decreases index.0,
    {
        if self.scopes@.contains_key(index.0) {
            assert(other.scopes@.contains_key(index.0));
            assert(self.scopes@[index.0].data@.dom().contains(var) == other.scopes@[index.0].data@.dom().contains(var));
        }
        if self.inheritance_edges@.contains_key(index.0) {
            let p = self.inheritance_edges@[index.0].0;
            assert(other.inheritance_edges@.contains_key(index.0));
            if p.0 < index.0 {
                self.lemma_same_shape(other, p, var);
            }
        } else {
            assert(!other.inheritance_edges@.contains_key(index.0));
        }
    }

    /// Below a scope lies the scope itself and what lies below its children.
    proof fn lemma_live_below_children(&self, root: u32, d: u32, x: u32)
        requires
            self.wf(),
            self.scopes@.contains_key(root),
            self.hierarchy_edges@.contains_key(d),
            self.hierarchy_edges@[d].0.0 == root,
        ensures
            self.live_below(d, x) ==> self.live_below(root, x),
        decreases x,
    {
        if self.live_below(d, x) {
            if x != d {
                self.lemma_live_below_children(root, d, self.hierarchy_edges@[x].0.0);
            } else {
                assert(self.hierarchy_edges@[d].0.0 < d);
                assert(self.live_below(root, root));
            }
        }
    }

    proof fn lemma_live_below_split(&self, root: u32, x: u32)
        requires
            self.wf(),
            self.live_below(root, x),
            x != root,
        ensures
            exists|d: u32| #[trigger] self.hierarchy_edges@.contains_key(d) && self.hierarchy_edges@[d].0.0 == root
                && self.live_below(d, x),
        decreases x,
    {
        let p = self.hierarchy_edges@[x].0.0;
        if p == root {
            assert(self.live_below(x, x));
        } else {
            self.lemma_live_below_split(root, p);
            let d = choose|d: u32| #[trigger] self.hierarchy_edges@.contains_key(d) && self.hierarchy_edges@[d].0.0 == root
                && self.live_below(d, p);
            assert(self.live_below(d, x));
        }
    }
}

/// A graph structure of scopes that inherit from each other and provide
/// attributes to other scopes.
/// Invariants:
/// - every scope inherits from exactly 0 or 1 scopes.
/// - any scope may provide 0-n attributes to 0-n scopes.
/// - Inheritance is transitive
/// - There must not be inheritance loops: a scope only inherits from, and is
///   only created by, scopes with smaller indices.
///
/// If a inherits from b, b is called "parent scope" of a.
pub struct ScopeGraph<E> {
    graph: ScopeGraphInternal<E>,
    pub root_index: ScopeIndex,
    pub event_sender: UnboundedSender<ScopeGraphEvent>,
}

impl<E> ScopeGraph<E> {
    /// The internal maps are consistent, the root index was handed out, and
    /// every index of the graph is below the next index to hand out.
    pub closed spec fn wf(&self) -> bool {
        self.graph.wf() && self.root_index.0 < self.graph.last_index.0
    }

    /// Every edge, and every scope recorded as a parent, is in the graph.
    pub closed spec fn valid(&self) -> bool {
        self.graph.valid()
    }

    /// The index of the global scope.
    pub closed spec fn root(&self) -> ScopeIndex {
        self.root_index
    }

    /// The index the next new scope gets.
    pub closed spec fn next_index(&self) -> u32 {
        self.graph.last_index.0
    }

    /// The scopes of the graph by index.
    pub closed spec fn scopes(&self) -> Map<u32, Scope> {
        self.graph.scopes@
    }

    /// The scope that `i` inherits from.
    pub closed spec fn inherits_from(&self, i: ScopeIndex) -> Option<ScopeIndex> {
        self.graph.inheritance_edges.parent_spec(i)
    }

    /// The variables that `i` references through its inheritance edge.
    pub closed spec fn inherited_references(&self, i: ScopeIndex) -> Set<Seq<char>> {
        self.graph.inheritance_edges@[i.0].1.references_spec()
    }

    /// The scope that created `i`.
    pub closed spec fn created_by(&self, i: ScopeIndex) -> Option<ScopeIndex> {
        self.graph.hierarchy_edges.parent_spec(i)
    }

    /// The attribute edges from the scope that created `i` to `i`.
    pub closed spec fn attribute_edges(&self, i: ScopeIndex) -> Seq<ProvidesAttrEdge<E>> {
        self.graph.hierarchy_edges@[i.0].1@
    }

    /// `x` is `root` or was created, directly or not, by `root`.
    pub closed spec fn in_subtree_of(&self, root: ScopeIndex, x: ScopeIndex) -> bool {
        in_subtree(self.graph.hierarchy_edges@, root.0, x.0)
    }

    /// What the subtree of `root` holds: `root` itself, and every scope
    /// created by a scope of the subtree; so no scope with a smaller index
    /// than `root` lies in it, and `remove_scope(root)` keeps all of those.
    pub proof fn lemma_subtree_of(&self, root: ScopeIndex, x: ScopeIndex)
        requires
            self.wf(),
        ensures
            self.in_subtree_of(root, root),
            self.in_subtree_of(root, x) ==> root.0 <= x.0,
            self.in_subtree_of(root, x) <==> (x == root || (self.created_by(x) matches Some(p) && self.in_subtree_of(
                root,
                p,
            ))),
    {
        self.law_no_inheritance_loops(x);
        if self.in_subtree_of(root, x) {
            lemma_subtree_above_root(self.graph.hierarchy_edges@, root.0, x.0);
        }
    }

    /// The closest scope, starting at `i` and following the inheritance
    /// edges, that defines `var`.
    pub closed spec fn defining_scope(&self, i: ScopeIndex, var: Seq<char>) -> Option<ScopeIndex> {
        self.graph.defining_scope(i, var)
    }

    /// Where the walk for `var` from `i` along the inheritance edges ends.
    pub closed spec fn chain_end(&self, i: ScopeIndex, var: Seq<char>) -> ChainEnd {
        self.graph.chain_end(i, var)
    }

    /// The walk for `var` from `start` along the inheritance edges passes over
    /// the inheritance edge of `i`.
    pub closed spec fn walked(&self, start: ScopeIndex, var: Seq<char>, i: ScopeIndex) -> bool {
        self.graph.walked(start, var, i.0)
    }

    /// The value of `var` as seen from scope `i`: its value in the closest
    /// scope that defines it.
    pub open spec fn lookup(&self, i: ScopeIndex, var: Seq<char>) -> Option<String> {
        match self.defining_scope(i, var) {
            Some(d) => Some(self.scopes()[d.0].data@[var]),
            None => None,
        }
    }

    /// `values` holds, for each variable of `names`, its value as seen from
    /// `scope`, and nothing else; each of them is visible there.
    pub open spec fn looked_up(&self, scope: ScopeIndex, names: Seq<VarName>, values: NameMap<String>) -> bool {
        &&& values.wf()
        &&& forall|k: int| 0 <= k < names.len() ==> self.lookup(scope, (#[trigger] names[k])@) is Some
        &&& forall|v: Seq<char>| #[trigger] values@.contains_key(v) <==> refs_contain(names, v)
        &&& forall|v: Seq<char>| #[trigger] values@.contains_key(v) ==> self.lookup(scope, v) == Some(values@[v])
    }

    /// `e` names a variable of `names` that is not visible from `scope`.
    pub open spec fn lookup_failed(&self, scope: ScopeIndex, names: Seq<VarName>, e: ScopeGraphError) -> bool {
        exists|k: int| 0 <= k < names.len() && self.lookup(scope, (#[trigger] names[k])@) is None
            && e == ScopeGraphError::VariableNotInScope(names[k])
    }

    /// `edge` is an attribute edge from `source` to the scope `target` that it
    /// created, whose expression references `var`.
    pub open spec fn provides_attribute(&self, source: ScopeIndex, var: Seq<char>, target: ScopeIndex, edge: ProvidesAttrEdge<E>) -> bool {
        &&& self.created_by(target) == Some(source)
        &&& self.attribute_edges(target).contains(edge)
        &&& refs_contain(edge.references@, var)
    }

    /// `child` inherits from `scope` and references `var` through the edge.
    pub open spec fn references_through(&self, child: ScopeIndex, scope: ScopeIndex, var: Seq<char>) -> bool {
        &&& self.inherits_from(child) == Some(scope)
        &&& self.inherited_references(child).contains(var)
    }

    /// A scope sees the variables it defines itself, whatever the scopes it
    /// inherits from define: the search for such a variable ends at the scope.
    pub proof fn law_own_variables_shadow_inherited(&self, i: ScopeIndex, v: Seq<char>)
        requires
            self.scopes().contains_key(i.0),
            self.scopes()[i.0].data@.contains_key(v),
        ensures
            self.defining_scope(i, v) == Some(i),
            self.lookup(i, v) == Some(self.scopes()[i.0].data@[v]),
    {
    }

    /// A scope that does not define a variable sees it as the scope it
    /// inherits from sees it: the search for it from the scope ends where the
    /// search from that parent ends.
    pub proof fn law_lookup_follows_inheritance(&self, i: ScopeIndex, p: ScopeIndex, v: Seq<char>)
        requires
            self.wf(),
            self.scopes().contains_key(i.0),
            !self.scopes()[i.0].data@.contains_key(v),
            self.inherits_from(i) == Some(p),
        ensures
            self.defining_scope(i, v) == self.defining_scope(p, v),
            self.lookup(i, v) == self.lookup(p, v),
    {
        assert(self.graph.inheritance_edges@.contains_key(i.0));
    }

    /// Every scope of the graph has an index below the next one to hand out,
    /// so a new scope never takes the index of one in the graph; and the
    /// variables of each scope are a well-formed map.
    pub proof fn law_scopes_in_range(&self, k: u32)
        requires
            self.wf(),
        ensures
            self.scopes().contains_key(k) ==> k < self.next_index() && self.scopes()[k].data.wf(),
            !self.scopes().contains_key(self.next_index()),
    {
    }

    /// A variable is used below `root` exactly when some listener of a scope
    /// in the subtree of `root` needs it: every such scope counts when every
    /// edge of the graph joins scopes of the graph, and only scopes of the
    /// graph count in any case.
    pub proof fn law_used_below(&self, root: ScopeIndex, v: Seq<char>)
        requires
            self.wf(),
        ensures
            self.used_below(root, v) ==> exists|x: ScopeIndex| #[trigger] self.in_subtree_of(root, x)
                && self.scopes().contains_key(x.0) && listens_to(self.scopes()[x.0].listeners@, v),
            self.valid() ==> (self.used_below(root, v) <==> exists|x: ScopeIndex| #[trigger] self.in_subtree_of(root, x)
                && self.scopes().contains_key(x.0) && listens_to(self.scopes()[x.0].listeners@, v)),
    {
        if self.used_below(root, v) {
            let x = choose|x: u32| #[trigger] self.graph.live_below(root.0, x)
                && listens_to(self.graph.scopes@[x].listeners@, v);
            self.graph.lemma_live_below_in_subtree(root.0, x);
            assert(self.in_subtree_of(root, ScopeIndex(x)));
        }
        if self.valid() {
            assert forall|x: ScopeIndex| #[trigger] self.in_subtree_of(root, x)
                && self.scopes().contains_key(x.0) && listens_to(self.scopes()[x.0].listeners@, v)
                implies self.used_below(root, v) by {
                self.graph.lemma_subtree_live_below(root.0, x.0);
                assert(self.graph.live_below(root.0, x.0));
            }
        }
    }

    /// There are no inheritance loops: a scope only inherits from, and is
    /// only created by, a scope with a smaller index.
    pub proof fn law_no_inheritance_loops(&self, i: ScopeIndex)
        requires
            self.wf(),
        ensures
            self.inherits_from(i) matches Some(p) ==> p.0 < i.0,
            self.created_by(i) matches Some(p) ==> p.0 < i.0,
    {
        if self.graph.inheritance_edges@.contains_key(i.0) {
        }
        if self.graph.hierarchy_edges@.contains_key(i.0) {
        }
    }

    /// A value that a scope sees is the value of the variable in a scope on
    /// its walk along the inheritance edges.
    pub proof fn law_lookup_comes_from_the_walk(&self, i: ScopeIndex, v: Seq<char>)
        requires
            self.wf(),
        ensures
            self.lookup(i, v) matches Some(x) ==> exists|d: ScopeIndex| #[trigger] self.on_walk(i, d)
                && self.scopes()[d.0].data@.contains_key(v) && self.scopes()[d.0].data@[v] == x,
        decreases i.0,
    {
        if self.scopes().contains_key(i.0) {
            if self.scopes()[i.0].data@.contains_key(v) {
                assert(self.on_walk(i, i));
            } else if self.graph.inheritance_edges@.contains_key(i.0) {
                let p = self.graph.inheritance_edges@[i.0].0;
                self.law_lookup_comes_from_the_walk(p, v);
                if let Some(x) = self.lookup(i, v) {
                    let d = choose|d: ScopeIndex| #[trigger] self.on_walk(p, d)
                        && self.scopes()[d.0].data@.contains_key(v) && self.scopes()[d.0].data@[v] == x;
                    assert(self.on_walk(i, d));
                }
            }
        }
    }

    /// Looking up a variable that a scope defines itself passes over no
    /// inheritance edge, so registering such a reference changes nothing.
    pub proof fn law_own_variables_walk_no_edge(&self, i: ScopeIndex, v: Seq<char>)
        requires
            self.scopes().contains_key(i.0),
            self.scopes()[i.0].data@.contains_key(v),
        ensures
            forall|c: ScopeIndex| !#[trigger] self.walked(i, v, c),
    {
    }

    /// A new graph whose only scope is the global scope, named `global`,
    /// which holds `vars`.
    pub fn from_global_vars(vars: NameMap<String>, event_sender: UnboundedSender<ScopeGraphEvent>) -> (g: Self)
        requires
            vars.wf(),
        ensures
            g.wf(),
            g.valid(),
            g.root() == ScopeIndex(0),
            g.next_index() == 1,
            g.scopes().dom() == set![0u32],
            g.scopes()[0].name@ == "global"@,
            g.scopes()[0].ancestor is None,
            g.scopes()[0].data == vars,
            g.scopes()[0].listeners@.len() == 0,
            g.scopes()[0].node_index == ScopeIndex(0),
            g.inherits_from(ScopeIndex(0)) is None,
            g.created_by(ScopeIndex(0)) is None,
            forall|v: Seq<char>| !g.used_below(g.root(), v),
    {
        let mut graph = ScopeGraphInternal::new();
        let root_index = graph.add_scope(Scope::new("global".to_owned(), None, vars));
        match graph.scope_at_mut(root_index) {
            Some(scope) => {
                scope.node_index = root_index;
            },
            None => {},
        }
        proof {
            assert(graph.scopes@.dom() =~= set![0u32]);
            assert forall|v: Seq<char>| !graph.used_below(0, v) by {
                if graph.used_below(0, v) {
                    let x = choose|x: u32| #[trigger] graph.live_below(0, x) && listens_to(graph.scopes@[x].listeners@, v);
                    assert(graph.scopes@.contains_key(x));
                }
            }
        }
        ScopeGraph { graph, root_index, event_sender }
    }

    /// Fully reinitialize the scope graph: removes all scopes and edges, and
    /// adds a new global scope holding `vars`. Indices are not reused.
    pub fn clear(&mut self, vars: NameMap<String>)
        requires
            old(self).wf(),
            old(self).next_index() < u32::MAX,
            vars.wf(),
        ensures
            final(self).wf(),
            final(self).valid(),
            final(self).root() == ScopeIndex(old(self).next_index()),
            final(self).next_index() == old(self).next_index() + 1,
            final(self).scopes().dom() == set![old(self).next_index()],
            final(self).scopes()[old(self).next_index()].name@ == "global"@,
            final(self).scopes()[old(self).next_index()].ancestor is None,
            final(self).scopes()[old(self).next_index()].data == vars,
            final(self).scopes()[old(self).next_index()].listeners@.len() == 0,
            final(self).scopes()[old(self).next_index()].node_index == final(self).root(),
            final(self).inherits_from(final(self).root()) is None,
            final(self).created_by(final(self).root()) is None,
            forall|v: Seq<char>| !final(self).used_below(final(self).root(), v),
    {
        self.graph.clear();
        let root_index = self.graph.add_scope(Scope::new("global".to_owned(), None, vars));
        match self.graph.scope_at_mut(root_index) {
            Some(scope) => {
                scope.node_index = root_index;
            },
            None => {},
        }
        self.root_index = root_index;
        proof {
            assert(self.graph.scopes@.dom() =~= set![old(self).next_index()]);
            assert forall|v: Seq<char>| !self.graph.used_below(root_index.0, v) by {
                if self.graph.used_below(root_index.0, v) {
                    let x = choose|x: u32| #[trigger] self.graph.live_below(root_index.0, x)
                        && listens_to(self.graph.scopes@[x].listeners@, v);
                    assert(self.graph.scopes@.contains_key(x));
                }
            }
        }
    }

    /// Removes the scope `scope_index` and every scope it created, directly or
    /// not, with all edges that touch them.
    pub fn remove_scope(&mut self, scope_index: ScopeIndex)
        requires
            old(self).wf(),
        ensures
            final(self).wf(),
            final(self).root() == old(self).root(),
            final(self).next_index() == old(self).next_index(),
            forall|k: u32| #[trigger] final(self).scopes().contains_key(k) == (old(self).scopes().contains_key(k)
                && !old(self).in_subtree_of(scope_index, ScopeIndex(k))),
            forall|k: u32| #[trigger] final(self).scopes().contains_key(k) ==> final(self).scopes()[k] == old(self).scopes()[k],
            forall|k: ScopeIndex| #[trigger] final(self).scopes().contains_key(k.0) ==> final(self).created_by(k)
                == old(self).created_by(k) && (old(self).created_by(k) is Some ==> final(self).attribute_edges(k)
                == old(self).attribute_edges(k)),
            forall|k: ScopeIndex| #[trigger] final(self).scopes().contains_key(k.0) ==> final(self).inherits_from(k)
                == match old(self).inherits_from(k) {
                    Some(p) => if old(self).in_subtree_of(scope_index, p) { None } else { Some(p) },
                    None => None,
                },
            old(self).valid() ==> final(self).valid(),
    {
        self.graph.remove_scope(scope_index);
        proof {
            assert forall|k: ScopeIndex| #[trigger] self.scopes().contains_key(k.0) implies self.created_by(k)
                == old(self).created_by(k) && (old(self).created_by(k) is Some ==> self.attribute_edges(k)
                == old(self).attribute_edges(k)) by {
                assert(!in_subtree(old(self).graph.hierarchy_edges@, scope_index.0, k.0));
            }
            assert forall|k: ScopeIndex| #[trigger] self.scopes().contains_key(k.0) implies self.inherits_from(k)
                == match old(self).inherits_from(k) {
                    Some(p) => if old(self).in_subtree_of(scope_index, p) { None } else { Some(p) },
                    None => None,
                } by {
                assert(!in_subtree(old(self).graph.hierarchy_edges@, scope_index.0, k.0));
            }
        }
    }

    /// Handles an event sent by the widgets of a scope.
    pub fn handle_scope_graph_event(&mut self, evt: ScopeGraphEvent)
        requires
            old(self).wf(),
        ensures
            final(self).wf(),
            match evt {
                ScopeGraphEvent::RemoveScope(i) => forall|k: u32| #[trigger] final(self).scopes().contains_key(k)
                    == (old(self).scopes().contains_key(k) && !old(self).in_subtree_of(i, ScopeIndex(k))),
            },
            old(self).valid() ==> final(self).valid(),
    {
        match evt {
            ScopeGraphEvent::RemoveScope(scope_index) => {
                self.remove_scope(scope_index);
            },
        }
    }

    /// Checks that every edge, and every scope recorded as a parent, is in
    /// the graph.
    pub fn validate(&self) -> (r: Result<(), ScopeGraphError>)
        requires
            self.wf(),
        ensures
            r is Ok <==> self.valid(),
    {
        self.graph.validate()
    }

    /// The global scope.
    pub fn global_scope(&self) -> (r: &Scope)
        requires
            self.scopes().contains_key(self.root().0),
        ensures
            *r == self.scopes()[self.root().0],
    {
        self.graph.scope_at(self.root_index).unwrap()
    }

    /// The scope at `index`.
    pub fn scope_at(&self, index: ScopeIndex) -> (r: Option<&Scope>)
        ensures
            match r {
                Some(s) => self.scopes().contains_key(index.0) && *s == self.scopes()[index.0],
                None => !self.scopes().contains_key(index.0),
            },
    {
        self.graph.scope_at(index)
    }

    /// Find the closest available scope that contains variable with the given name.
    pub fn find_scope_with_variable(&self, index: ScopeIndex, var_name: &VarName) -> (r: Option<ScopeIndex>)
        requires
            self.wf(),
        ensures
            r == self.defining_scope(index, var_name@),
    {
        self.graph.find_scope_with_variable(index, var_name)
    }

    /// Find the value of a variable in the closest available scope that contains a variable with that name.
    pub fn lookup_variable_in_scope(&self, index: ScopeIndex, var_name: &VarName) -> (r: Option<&String>)
        requires
            self.wf(),
        ensures
            match r {
                Some(v) => self.lookup(index, var_name@) == Some(*v),
                None => self.lookup(index, var_name@) is None,
            },
    {
        let found = self.graph.find_scope_with_variable(index, var_name);
        proof {
            self.graph.lemma_defining_scope_defines(index, var_name@);
        }
        match found {
            None => None,
            Some(scope) => match self.graph.scope_at(scope) {
                None => None,
                Some(s) => s.data.get(var_name),
            },
        }
    }

    /// Like [Self::lookup_variable_in_scope], but looks up a list of
    /// variables and stores them in a map; fails on the first variable that
    /// is not in scope.
    pub fn lookup_variables_in_scope(&self, scope_index: ScopeIndex, vars: &Vec<VarName>) -> (r: Result<NameMap<String>, ScopeGraphError>)
        requires
            self.wf(),
        ensures
            match r {
                Ok(m) => self.looked_up(scope_index, vars@, m),
                Err(e) => self.lookup_failed(scope_index, vars@, e),
            },
    {
        let mut result: NameMap<String> = NameMap::new();
        let mut i: usize = 0;
        while i < vars.len()
            invariant
                self.wf(),
                0 <= i <= vars@.len(),
                result.wf(),
                forall|k: int| 0 <= k < i ==> self.lookup(scope_index, (#[trigger] vars@[k])@) is Some,
                forall|v: Seq<char>| #[trigger] result@.contains_key(v) <==> refs_contain(vars@.take(i as int), v),
                forall|v: Seq<char>| #[trigger] result@.contains_key(v) ==> self.lookup(scope_index, v) == Some(result@[v]),
            decreases vars.len() - i,
        {
            let name = &vars[i];
            match self.lookup_variable_in_scope(scope_index, name) {
                None => {
                    return Err(ScopeGraphError::VariableNotInScope(name.copy()));
                },
                Some(value) => {
                    let ghost before = result@;
                    result.insert(name.copy(), value.clone());
                    proof {
                        let ii = i as int;
                        assert(vars@.take(ii + 1) =~= vars@.take(ii).push(vars@[ii]));
                        assert forall|v: Seq<char>| #[trigger] result@.contains_key(v) <==> refs_contain(vars@.take(ii + 1), v) by {
                            if refs_contain(vars@.take(ii + 1), v) {
                                let k = choose|k: int| 0 <= k < vars@.take(ii + 1).len() && #[trigger] vars@.take(ii + 1)[k]@ == v;
                                if k < ii {
                                    assert(vars@.take(ii)[k]@ == v);
                                }
                            }
                            if refs_contain(vars@.take(ii), v) {
                                let k = choose|k: int| 0 <= k < vars@.take(ii).len() && #[trigger] vars@.take(ii)[k]@ == v;
                                assert(vars@.take(ii + 1)[k]@ == v);
                            }
                            if v == vars@[ii]@ {
                                assert(vars@.take(ii + 1)[ii]@ == v);
                            }
                        }
                    }
                },
            }
            i = i + 1;
        }
        proof {
            assert(vars@.take(vars@.len() as int) =~= vars@);
        }
        Ok(result)
    }

    /// Register a new scope in the graph, created by `calling_scope` and
    /// inheriting from `parent_scope`. Its variables are the attributes, whose
    /// values the caller evaluated in `calling_scope`. Every attribute whose
    /// expression references variables becomes an attribute edge from the
    /// calling scope, and those variables are registered as referenced by the
    /// calling scope. Fails, changing nothing, when a referenced variable is
    /// not visible from the calling scope.
    pub fn register_new_scope(
        &mut self,
        name: String,
        parent_scope: Option<ScopeIndex>,
        calling_scope: ScopeIndex,
        attributes: Vec<AttributeValue<E>>,
    ) -> (r: Result<ScopeIndex, ScopeGraphError>)
        requires
            old(self).wf(),
            old(self).next_index() < u32::MAX,
            calling_scope.0 < old(self).next_index(),
            parent_scope matches Some(p) ==> p.0 < old(self).next_index(),
        ensures
            final(self).wf(),
            final(self).root() == old(self).root(),
            r is Ok <==> forall|k: int, j: int| 0 <= k < attributes@.len() && 0 <= j < attributes@[k].references@.len()
                ==> old(self).lookup(calling_scope, (#[trigger] attributes@[k].references@[j])@) is Some,
            r matches Err(e) ==> *final(self) == *old(self) && exists|k: int, j: int| 0 <= k < attributes@.len()
                && 0 <= j < attributes@[k].references@.len()
                && old(self).lookup(calling_scope, (#[trigger] attributes@[k].references@[j])@) is None
                && e == ScopeGraphError::VariableNotInScope(attributes@[k].references@[j]),
            r matches Ok(idx) ==> (idx.0 == old(self).next_index()),
            r matches Ok(idx) ==> !old(self).scopes().contains_key(idx.0),
            r matches Ok(idx) ==> (final(self).next_index() == old(self).next_index() + 1),
            r matches Ok(idx) ==> (final(self).scopes().dom() == old(self).scopes().dom().insert(idx.0)),
            r matches Ok(idx) ==> (forall|k: u32| #[trigger] old(self).scopes().contains_key(k) ==> final(self).scopes()[k] == old(self).scopes()[k]),
            r matches Ok(idx) ==> (final(self).scopes()[idx.0].name == name),
            r matches Ok(idx) ==> (final(self).scopes()[idx.0].ancestor == Some(calling_scope)),
            r matches Ok(idx) ==> (final(self).scopes()[idx.0].data@ == attribute_values(attributes@)),
            r matches Ok(idx) ==> (final(self).scopes()[idx.0].listeners@.len() == 0),
            r matches Ok(idx) ==> (final(self).scopes()[idx.0].node_index == idx),
            r matches Ok(idx) ==> (final(self).created_by(idx) == Some(calling_scope)),
            r matches Ok(idx) ==> (final(self).inherits_from(idx) == parent_scope),
            r matches Ok(idx) ==> (forall|e: ProvidesAttrEdge<E>| #[trigger] final(self).attribute_edges(idx).contains(e) <==> exists|k: int|
                    0 <= k < attributes@.len() && attributes@[k].references@.len() > 0 && e == attribute_edge(#[trigger] attributes@[k])),
            r matches Ok(idx) ==> (forall|i: ScopeIndex| i != idx ==> #[trigger] final(self).created_by(i) == old(self).created_by(i)),
            r matches Ok(idx) ==> (forall|i: ScopeIndex| i != idx && old(self).created_by(i) is Some ==> #[trigger] final(self).attribute_edges(i) == old(self).attribute_edges(i)),
            r matches Ok(idx) ==> (forall|i: ScopeIndex| i != idx ==> #[trigger] final(self).inherits_from(i) == old(self).inherits_from(i)),
            r matches Ok(idx) ==> (parent_scope is Some ==> final(self).inherited_references(idx) == Set::<Seq<char>>::empty()),
            r matches Ok(idx) ==> (forall|i: ScopeIndex| old(self).inherits_from(i) is Some ==> #[trigger] final(self).inherited_references(i)
                    == old(self).inherited_references(i).union(Set::new(|v: Seq<char>| attributes_reference(attributes@, v) && old(self).walked(calling_scope, v, i)))),
            old(self).valid() && old(self).scopes().contains_key(calling_scope.0) && (parent_scope matches Some(p) ==> old(self).scopes().contains_key(p.0))
                ==> final(self).valid(),
    {
        let ghost attrs = attributes@;
        let ghost g0 = self.graph;
        // First get the current values. If nothing here fails, we know that
        // everything is in scope.
        let mut scope_variables: NameMap<String> = NameMap::new();
        let mut k: usize = 0;
        while k < attributes.len()
            invariant
                self.wf(),
                self.graph == g0,
                attrs == attributes@,
                0 <= k <= attrs.len(),
                scope_variables.wf(),
                scope_variables@ == attribute_values(attrs.take(k as int)),
                forall|kk: int, j: int| 0 <= kk < k && 0 <= j < attrs[kk].references@.len()
                    ==> self.lookup(calling_scope, (#[trigger] attrs[kk].references@[j])@) is Some,
            decreases attributes.len() - k,
        {
            let attr = &attributes[k];
            match self.lookup_variables_in_scope(calling_scope, &attr.references) {
                Err(e) => {
                    return Err(e);
                },
                Ok(_) => {},
            }
            scope_variables.insert(attr.name.to_var_name(), attr.value.clone());
            proof {
                let kk = k as int;
                assert(attrs.take(kk + 1).drop_last() =~= attrs.take(kk));
            }
            k = k + 1;
        }
        proof {
            assert(attrs.take(attrs.len() as int) =~= attrs);
        }
        // Now that we're sure that we have all of the values, we can make
        // changes to the scope graph without risking getting it into an
        // inconsistent state.
        let new_scope = Scope::new(name, Some(calling_scope), scope_variables);
        let new_scope_index = self.graph.add_scope(new_scope);
        match parent_scope {
            Some(parent) => {
                self.graph.add_inherits_edge(new_scope_index, parent, InheritsEdge::new());
            },
            None => {},
        }
        match self.graph.scope_at_mut(new_scope_index) {
            Some(scope) => {
                scope.node_index = new_scope_index;
            },
            None => {},
        }
        let ghost g1 = self.graph;
        proof {
            assert(g1.agree_below(&g0, calling_scope.0));
        }
        let mut attrs_left = attributes;
        while attrs_left.len() > 0
            invariant
                self.wf(),
                g1.wf(),
                g1.agree_below(&g0, calling_scope.0),
                self.graph.same_chains(&g1),
                self.root_index == old(self).root_index,
                self.graph.last_index == g1.last_index,
                self.graph.hierarchy_edges.recorded_parents() == g1.hierarchy_edges.recorded_parents(),
                self.graph.inheritance_edges.recorded_parents() == g1.inheritance_edges.recorded_parents(),
                self.graph.hierarchy_edges@.dom() == g1.hierarchy_edges@.dom(),
                forall|c: u32| #[trigger] self.graph.hierarchy_edges@.contains_key(c) ==> self.graph.hierarchy_edges@[c].0 == g1.hierarchy_edges@[c].0,
                forall|c: u32| c != new_scope_index.0 && #[trigger] self.graph.hierarchy_edges@.contains_key(c) ==> self.graph.hierarchy_edges@[c] == g1.hierarchy_edges@[c],
                g1.hierarchy_edges@.contains_key(new_scope_index.0),
                g1.hierarchy_edges@[new_scope_index.0].0 == calling_scope,
                g1.hierarchy_edges@[new_scope_index.0].1@.len() == 0,
                attrs_left@.len() <= attrs.len(),
                forall|q: int| 0 <= q < attrs_left@.len() ==> #[trigger] attrs_left@[q] == attrs[q],
                forall|kk: int, j: int| 0 <= kk < attrs.len() && 0 <= j < attrs[kk].references@.len()
                    ==> g0.defining_scope(calling_scope, (#[trigger] attrs[kk].references@[j])@) is Some,
                forall|e: ProvidesAttrEdge<E>| #[trigger] self.graph.hierarchy_edges@[new_scope_index.0].1@.contains(e) <==> exists|kk: int|
                    attrs_left@.len() <= kk < attrs.len() && attrs[kk].references@.len() > 0 && e == attribute_edge(#[trigger] attrs[kk]),
                forall|c: u32| #[trigger] self.graph.inheritance_edges@.contains_key(c) ==> self.graph.inheritance_edges@[c].1.references_spec()
                    == g1.inheritance_edges@[c].1.references_spec().union(Set::new(|v: Seq<char>| exists|kk: int|
                        attrs_left@.len() <= kk < attrs.len() && refs_contain((#[trigger] attrs[kk]).references@, v) && g0.walked(calling_scope, v, c))),
                g1.valid() ==> self.graph.valid(),
            decreases attrs_left.len(),
        {
            let attr = attrs_left.pop().unwrap();
            let ghost kk = attrs_left@.len() as int;
            assert(attr == attrs[kk]);
            let ghost ga = self.graph;
            if attr.references.len() > 0 {
                let used = copy_names(&attr.references);
                let ghost before_edges = self.graph.hierarchy_edges@[new_scope_index.0].1@;
                self.graph.register_scope_provides_attr(
                    calling_scope,
                    new_scope_index,
                    ProvidesAttrEdge { attr_name: attr.name, expression: attr.expression, references: attr.references },
                );
                let ghost gm = self.graph;
                proof {
                    assert forall|j: int| 0 <= j < used@.len() implies gm.defining_scope(calling_scope, (#[trigger] used@[j])@) is Some by {
                        assert(used@[j] == attrs[kk].references@[j]);
                        gm.lemma_same_chains(&g1, calling_scope, used@[j]@);
                        g1.lemma_agree_below(&g0, calling_scope.0, calling_scope, used@[j]@);
                    }
                }
                self.graph.register_references(calling_scope, &used);
                proof {
                    let after = self.graph.hierarchy_edges@[new_scope_index.0].1@;
                    assert(after == before_edges.push(attribute_edge(attrs[kk])));
                    assert forall|e: ProvidesAttrEdge<E>| #[trigger] after.contains(e) <==> exists|kx: int|
                        kk <= kx < attrs.len() && attrs[kx].references@.len() > 0 && e == attribute_edge(#[trigger] attrs[kx]) by {
                        if after.contains(e) {
                            let t = choose|t: int| 0 <= t < after.len() && after[t] == e;
                            if t < before_edges.len() {
                                assert(before_edges[t] == e);
                                assert(before_edges.contains(e));
                            }
                        }
                        if exists|kx: int| kk <= kx < attrs.len() && attrs[kx].references@.len() > 0 && e == attribute_edge(#[trigger] attrs[kx]) {
                            let kx = choose|kx: int| kk <= kx < attrs.len() && attrs[kx].references@.len() > 0 && e == attribute_edge(#[trigger] attrs[kx]);
                            if kx == kk {
                                assert(after[after.len() - 1] == e);
                            } else {
                                assert(before_edges.contains(e));
                                let t = choose|t: int| 0 <= t < before_edges.len() && before_edges[t] == e;
                                assert(after[t] == e);
                            }
                        }
                    }
                    assert forall|c: u32| #[trigger] self.graph.inheritance_edges@.contains_key(c) implies self.graph.inheritance_edges@[c].1.references_spec()
                        == g1.inheritance_edges@[c].1.references_spec().union(Set::new(|v: Seq<char>| exists|kx: int|
                            kk <= kx < attrs.len() && refs_contain((#[trigger] attrs[kx]).references@, v) && g0.walked(calling_scope, v, c))) by {
                        assert(gm.inheritance_edges@.contains_key(c));
                        assert(ga.inheritance_edges@.contains_key(c));
                        let after = self.graph.inheritance_edges@[c].1.references_spec();
                        let mid = gm.inheritance_edges@[c].1.references_spec();
                        let base = g1.inheritance_edges@[c].1.references_spec();
                        assert forall|v: Seq<char>| after.contains(v) <==> (base.contains(v) || exists|kx: int|
                            kk <= kx < attrs.len() && refs_contain((#[trigger] attrs[kx]).references@, v) && g0.walked(calling_scope, v, c)) by {
                            gm.lemma_same_chains(&g1, calling_scope, v);
                            g1.lemma_agree_below(&g0, calling_scope.0, calling_scope, v);
                            assert(mid.contains(v) <==> (base.contains(v) || exists|kx: int|
                                kk + 1 <= kx < attrs.len() && refs_contain((#[trigger] attrs[kx]).references@, v) && g0.walked(calling_scope, v, c)));
                            if refs_contain(used@, v) {
                                assert(refs_contain(attrs[kk].references@, v));
                            }
                            if exists|kx: int| kk <= kx < attrs.len() && refs_contain((#[trigger] attrs[kx]).references@, v) && g0.walked(calling_scope, v, c) {
                                let kx = choose|kx: int| kk <= kx < attrs.len() && refs_contain((#[trigger] attrs[kx]).references@, v) && g0.walked(calling_scope, v, c);
                                if kx == kk {
                                    assert(refs_contain(used@, v));
                                }
                            }
                        }
                        assert(after =~= base.union(Set::new(|v: Seq<char>| exists|kx: int|
                            kk <= kx < attrs.len() && refs_contain((#[trigger] attrs[kx]).references@, v) && g0.walked(calling_scope, v, c))));
                    }
                }
            } else {
                proof {
                    assert forall|e: ProvidesAttrEdge<E>| #[trigger] self.graph.hierarchy_edges@[new_scope_index.0].1@.contains(e) <==> exists|kx: int|
                        kk <= kx < attrs.len() && attrs[kx].references@.len() > 0 && e == attribute_edge(#[trigger] attrs[kx]) by {
                    }
                    assert forall|c: u32| #[trigger] self.graph.inheritance_edges@.contains_key(c) implies self.graph.inheritance_edges@[c].1.references_spec()
                        == g1.inheritance_edges@[c].1.references_spec().union(Set::new(|v: Seq<char>| exists|kx: int|
                            kk <= kx < attrs.len() && refs_contain((#[trigger] attrs[kx]).references@, v) && g0.walked(calling_scope, v, c))) by {
                        let after = self.graph.inheritance_edges@[c].1.references_spec();
                        let base = g1.inheritance_edges@[c].1.references_spec();
                        assert forall|v: Seq<char>| after.contains(v) <==> (base.contains(v) || exists|kx: int|
                            kk <= kx < attrs.len() && refs_contain((#[trigger] attrs[kx]).references@, v) && g0.walked(calling_scope, v, c)) by {
                            if exists|kx: int| kk <= kx < attrs.len() && refs_contain((#[trigger] attrs[kx]).references@, v) && g0.walked(calling_scope, v, c) {
                                let kx = choose|kx: int| kk <= kx < attrs.len() && refs_contain((#[trigger] attrs[kx]).references@, v) && g0.walked(calling_scope, v, c);
                                if kx == kk {
                                    assert(attrs[kk].references@.len() == 0);
                                    assert(false);
                                }
                            }
                        }
                        assert(after =~= base.union(Set::new(|v: Seq<char>| exists|kx: int|
                            kk <= kx < attrs.len() && refs_contain((#[trigger] attrs[kx]).references@, v) && g0.walked(calling_scope, v, c))));
                    }
                }
            }
        }
        proof {
            let g = self.graph;
            assert forall|i: ScopeIndex| i != new_scope_index && old(self).created_by(i) is Some implies
                #[trigger] self.attribute_edges(i) == old(self).attribute_edges(i) by {
                assert(g0.hierarchy_edges@.contains_key(i.0));
                assert(g1.hierarchy_edges@.contains_key(i.0));
                assert(g.hierarchy_edges@.contains_key(i.0));
            }
            assert forall|i: ScopeIndex| i != new_scope_index implies #[trigger] self.created_by(i) == old(self).created_by(i) by {
                if g0.hierarchy_edges@.contains_key(i.0) {
                    assert(g1.hierarchy_edges@.contains_key(i.0));
                }
                if g.hierarchy_edges@.contains_key(i.0) {
                    assert(g1.hierarchy_edges@.contains_key(i.0));
                }
            }
            assert forall|i: ScopeIndex| i != new_scope_index implies #[trigger] self.inherits_from(i) == old(self).inherits_from(i) by {
                if g0.inheritance_edges@.contains_key(i.0) {
                    assert(g1.inheritance_edges@.contains_key(i.0));
                }
                if g.inheritance_edges@.contains_key(i.0) {
                    assert(g1.inheritance_edges@.contains_key(i.0));
                }
            }
            if parent_scope is Some {
                assert(g.inheritance_edges@.contains_key(new_scope_index.0));
                let after = g.inheritance_edges@[new_scope_index.0].1.references_spec();
                assert forall|v: Seq<char>| !after.contains(v) by {
                    if g0.walked(calling_scope, v, new_scope_index.0) {
                        lemma_walked_below(&g0, calling_scope, v, new_scope_index.0);
                    }
                }
                assert(after =~= Set::<Seq<char>>::empty());
            }
            assert forall|i: ScopeIndex| old(self).inherits_from(i) is Some implies #[trigger] self.inherited_references(i)
                == old(self).inherited_references(i).union(Set::new(|v: Seq<char>| attributes_reference(attrs, v) && old(self).walked(calling_scope, v, i))) by {
                assert(g0.inheritance_edges@.contains_key(i.0));
                assert(i.0 != new_scope_index.0);
                assert(g1.inheritance_edges@.contains_key(i.0));
                assert(g.inheritance_edges@.contains_key(i.0));
                let after = g.inheritance_edges@[i.0].1.references_spec();
                assert(after =~= g0.inheritance_edges@[i.0].1.references_spec().union(Set::new(|v: Seq<char>|
                    attributes_reference(attrs, v) && g0.walked(calling_scope, v, i.0))));
            }
        }
        Ok(new_scope_index)
    }

    /// `i` is a scope of the graph on the walk from `start` along the
    /// inheritance edges.
    pub closed spec fn on_walk(&self, start: ScopeIndex, i: ScopeIndex) -> bool {
        self.graph.on_walk(start, i.0)
    }

    /// Some listener of a scope in the graph, that is `root` or below it in
    /// the hierarchy through scopes of the graph, needs `var`.
    pub closed spec fn used_below(&self, root: ScopeIndex, var: Seq<char>) -> bool {
        self.graph.used_below(root.0, var)
    }

    /// Search through all available scopes for a scope that satisfies the
    /// given condition: the first scope, starting at `scope_index` and
    /// following the inheritance edges, on which `f` returns true.
    pub fn find_available_scope_where<F: Fn(&Scope) -> bool>(&self, scope_index: ScopeIndex, f: F) -> (r: Option<ScopeIndex>)
        requires
            self.wf(),
            forall|s: &Scope| #[trigger] f.requires((s,)),
        ensures
            match r {
                Some(i) => {
                    &&& self.on_walk(scope_index, i)
                    &&& f.ensures((&self.scopes()[i.0],), true)
                    &&& forall|c: ScopeIndex| #[trigger] self.on_walk(scope_index, c) && c.0 > i.0
                        ==> f.ensures((&self.scopes()[c.0],), false)
                },
                None => forall|c: ScopeIndex| #[trigger] self.on_walk(scope_index, c)
                    ==> f.ensures((&self.scopes()[c.0],), false),
            },
        decreases scope_index.0,
    {
        match self.graph.scope_at(scope_index) {
            None => None,
            Some(content) => {
                if f(content) {
                    proof {
                        assert forall|c: ScopeIndex| #[trigger] self.on_walk(scope_index, c) implies c.0 <= scope_index.0 by {
                            self.graph.lemma_on_walk_below(scope_index, c.0);
                        }
                    }
                    Some(scope_index)
                } else {
                    match self.graph.parent_scope_of(scope_index) {
                        None => None,
                        Some(p) => {
                            assert(self.graph.inheritance_edges@.contains_key(scope_index.0));
                            let r = self.find_available_scope_where(p, f);
                            proof {
                                assert forall|c: ScopeIndex| #[trigger] self.on_walk(scope_index, c) && c != scope_index
                                    implies self.on_walk(p, c) by {
                                }
                                if let Some(i) = r {
                                    assert(self.on_walk(scope_index, i));
                                    self.graph.lemma_on_walk_below(p, i.0);
                                }
                            }
                            r
                        },
                    }
                }
            },
        }
    }

    /// Get all variables that are used in the given scope or in any
    /// descendants of that scope: the variables that their listeners need.
    /// If called with an index not in the tree, will return an empty set.
    pub fn variables_used_in_self_or_descendants_of(&self, index: ScopeIndex) -> (r: NameMap<()>)
        requires
            self.wf(),
        ensures
            r.wf(),
            forall|v: Seq<char>| #[trigger] r@.contains_key(v) <==> self.used_below(index, v),
        decreases self.next_index() - index.0,
    {
        match self.graph.scope_at(index) {
            None => {
                proof {
                    assert forall|v: Seq<char>| !self.used_below(index, v) by {
                        if self.used_below(index, v) {
                            let x = choose|x: u32| #[trigger] self.graph.live_below(index.0, x)
                                && listens_to(self.graph.scopes@[x].listeners@, v);
                            self.lemma_live_below_in_graph(index, x);
                        }
                    }
                }
                NameMap::new()
            },
            Some(scope) => {
                let mut variables: NameMap<()> = NameMap::new();
                let ls = &scope.listeners;
                let mut i: usize = 0;
                while i < ls.len()
                    invariant
                        variables.wf(),
                        0 <= i <= ls@.len(),
                        forall|v: Seq<char>| #[trigger] variables@.contains_key(v) <==> listens_to(ls@.take(i as int), v),
                    decreases ls.len() - i,
                {
                    let needed = &ls[i].needed_variables;
                    let mut j: usize = 0;
                    while j < needed.len()
                        invariant
                            variables.wf(),
                            0 <= i < ls@.len(),
                            needed@ == ls@[i as int].needed_variables@,
                            0 <= j <= needed@.len(),
                            forall|v: Seq<char>| #[trigger] variables@.contains_key(v) <==> (listens_to(ls@.take(i as int), v)
                                || refs_contain(needed@.take(j as int), v)),
                        decreases needed.len() - j,
                    {
                        variables.insert(needed[j].copy(), ());
                        proof {
                            let jj = j as int;
                            assert(needed@.take(jj + 1) =~= needed@.take(jj).push(needed@[jj]));
                            assert forall|v: Seq<char>| refs_contain(needed@.take(jj + 1), v) <==> (refs_contain(needed@.take(jj), v)
                                || v == needed@[jj]@) by {
                                if refs_contain(needed@.take(jj + 1), v) {
                                    let t = choose|t: int| 0 <= t < needed@.take(jj + 1).len() && #[trigger] needed@.take(jj + 1)[t]@ == v;
                                    if t < jj {
                                        assert(needed@.take(jj)[t]@ == v);
                                    }
                                }
                                if refs_contain(needed@.take(jj), v) {
                                    let t = choose|t: int| 0 <= t < needed@.take(jj).len() && #[trigger] needed@.take(jj)[t]@ == v;
                                    assert(needed@.take(jj + 1)[t]@ == v);
                                }
                                if v == needed@[jj]@ {
                                    assert(needed@.take(jj + 1)[jj]@ == v);
                                }
                            }
                        }
                        j = j + 1;
                    }
                    proof {
                        let ii = i as int;
                        assert(needed@.take(needed@.len() as int) =~= needed@);
                        assert(ls@.take(ii + 1) =~= ls@.take(ii).push(ls@[ii]));
                        assert forall|v: Seq<char>| listens_to(ls@.take(ii + 1), v) <==> (listens_to(ls@.take(ii), v)
                            || refs_contain(needed@, v)) by {
                            if listens_to(ls@.take(ii + 1), v) {
                                let t = choose|t: int| 0 <= t < ls@.take(ii + 1).len() && refs_contain((#[trigger] ls@.take(ii + 1)[t]).needed_variables@, v);
                                if t < ii {
                                    assert(ls@.take(ii)[t] == ls@.take(ii + 1)[t]);
                                }
                            }
                            if listens_to(ls@.take(ii), v) {
                                let t = choose|t: int| 0 <= t < ls@.take(ii).len() && refs_contain((#[trigger] ls@.take(ii)[t]).needed_variables@, v);
                                assert(ls@.take(ii + 1)[t] == ls@.take(ii)[t]);
                            }
                            if refs_contain(needed@, v) {
                                assert(ls@.take(ii + 1)[ii] == ls@[ii]);
                            }
                        }
                    }
                    i = i + 1;
                }
                proof {
                    assert(ls@.take(ls@.len() as int) =~= ls@);
                }
                let kids = self.graph.hierarchy_edges.children_list(index);
                proof {
                    self.graph.lemma_children_facts(index, kids@);
                }
                let mut k: usize = 0;
                while k < kids.len()
                    invariant
                        self.wf(),
                        variables.wf(),
                        self.graph.scopes@.contains_key(index.0),
                        *scope == self.graph.scopes@[index.0],
                        0 <= k <= kids@.len(),
                        forall|m: int| 0 <= m < kids@.len() ==> self.graph.hierarchy_edges@.contains_key(#[trigger] kids@[m])
                            && self.graph.hierarchy_edges@[kids@[m]].0 == index && index.0 < kids@[m] && kids@[m] < self.graph.last_index.0,
                        forall|v: Seq<char>| #[trigger] variables@.contains_key(v) <==> (listens_to(scope.listeners@, v)
                            || exists|m: int| 0 <= m < k && #[trigger] self.used_below(ScopeIndex(kids@[m]), v)),
                    decreases kids.len() - k,
                {
                    let d = kids[k];
                    let sub = self.variables_used_in_self_or_descendants_of(ScopeIndex(d));
                    let ghost before = variables@;
                    let mut t: usize = 0;
                    while t < sub.len()
                        invariant
                            variables.wf(),
                            sub.wf(),
                            0 <= t <= sub.names().len(),
                            forall|v: Seq<char>| #[trigger] variables@.contains_key(v) <==> (before.contains_key(v)
                                || exists|q: int| 0 <= q < t && sub.names()[q] == v),
                        decreases sub.names().len() - t,
                    {
                        let n = sub.name_at(t);
                        variables.insert(n.copy(), ());
                        t = t + 1;
                    }
                    proof {
                        lemma_names_are_keys(&sub);
                        let kk = k as int;
                        assert forall|v: Seq<char>| #[trigger] variables@.contains_key(v) <==> (listens_to(scope.listeners@, v)
                            || exists|m: int| 0 <= m < kk + 1 && #[trigger] self.used_below(ScopeIndex(kids@[m]), v)) by {
                            if sub@.contains_key(v) {
                                let q = choose|q: int| 0 <= q < sub.names().len() && sub.names()[q] == v;
                                assert(sub.names()[q] == v);
                            }
                            if exists|q: int| 0 <= q < sub.names().len() && sub.names()[q] == v {
                                let q = choose|q: int| 0 <= q < sub.names().len() && sub.names()[q] == v;
                                assert(sub@.contains_key(sub.names()[q]));
                            }
                            if exists|m: int| 0 <= m < kk + 1 && #[trigger] self.used_below(ScopeIndex(kids@[m]), v) {
                                let m = choose|m: int| 0 <= m < kk + 1 && #[trigger] self.used_below(ScopeIndex(kids@[m]), v);
                                if m == kk {
                                    assert(sub@.contains_key(v));
                                }
                            }
                        }
                    }
                    k = k + 1;
                }
                proof {
                    assert forall|v: Seq<char>| #[trigger] variables@.contains_key(v) <==> self.used_below(index, v) by {
                        if self.used_below(index, v) {
                            let x = choose|x: u32| #[trigger] self.graph.live_below(index.0, x)
                                && listens_to(self.graph.scopes@[x].listeners@, v);
                            if x != index.0 {
                                self.graph.lemma_live_below_split(index.0, x);
                                let d = choose|d: u32| #[trigger] self.graph.hierarchy_edges@.contains_key(d)
                                    && self.graph.hierarchy_edges@[d].0.0 == index.0 && self.graph.live_below(d, x);
                                assert(self.graph.hierarchy_edges.children_spec(index).contains(d));
                                assert(kids@.to_set().contains(d));
                                let m = choose|m: int| 0 <= m < kids@.len() && kids@[m] == d;
                                assert(self.used_below(ScopeIndex(kids@[m]), v));
                            }
                        }
                        if exists|m: int| 0 <= m < kids@.len() && #[trigger] self.used_below(ScopeIndex(kids@[m]), v) {
                            let m = choose|m: int| 0 <= m < kids@.len() && #[trigger] self.used_below(ScopeIndex(kids@[m]), v);
                            let d = kids@[m];
                            let x = choose|x: u32| #[trigger] self.graph.live_below(d, x)
                                && listens_to(self.graph.scopes@[x].listeners@, v);
                            self.graph.lemma_live_below_children(index.0, d, x);
                        }
                        if listens_to(scope.listeners@, v) {
                            assert(self.graph.live_below(index.0, index.0));
                        }
                    }
                }
                variables
            },
        }
    }

    proof fn lemma_live_below_in_graph(&self, index: ScopeIndex, x: u32)
        requires
            self.graph.live_below(index.0, x),
        ensures
            self.graph.scopes@.contains_key(index.0),
        decreases x,
    {
        if x != index.0 {
            self.lemma_live_below_in_graph(index, self.graph.hierarchy_edges@[x].0.0);
        }
    }

    /// The global variables that some listener of the graph's scopes below
    /// the global scope needs.
    pub fn currently_used_globals(&self) -> (r: NameMap<()>)
        requires
            self.wf(),
        ensures
            r.wf(),
            forall|v: Seq<char>| #[trigger] r@.contains_key(v) <==> self.used_below(self.root(), v),
    {
        self.variables_used_in_self_or_descendants_of(self.root_index)
    }

    /// The global variables that no listener below the global scope needs.
    pub fn currently_unused_globals(&self) -> (r: NameMap<()>)
        requires
            self.wf(),
            self.scopes().contains_key(self.root().0),
        ensures
            r.wf(),
            forall|v: Seq<char>| #[trigger] r@.contains_key(v) <==> self.scopes()[self.root().0].data@.contains_key(v)
                && !self.used_below(self.root(), v),
    {
        let used_variables = self.currently_used_globals();
        let global_scope = match self.graph.scope_at(self.root_index) {
            Some(s) => s,
            None => {
                assert(false);
                return NameMap::new();
            },
        };
        let mut unused: NameMap<()> = NameMap::new();
        let mut t: usize = 0;
        while t < global_scope.data.len()
            invariant
                unused.wf(),
                used_variables.wf(),
                global_scope.data.wf(),
                0 <= t <= global_scope.data.names().len(),
                forall|v: Seq<char>| #[trigger] unused@.contains_key(v) <==> (exists|q: int| 0 <= q < t
                    && global_scope.data.names()[q] == v) && !used_variables@.contains_key(v),
            decreases global_scope.data.names().len() - t,
        {
            let n = global_scope.data.name_at(t);
            if !used_variables.contains_key(n) {
                unused.insert(n.copy(), ());
            }
            proof {
                let tt = t as int;
                assert forall|v: Seq<char>| #[trigger] unused@.contains_key(v) <==> (exists|q: int| 0 <= q < tt + 1
                    && global_scope.data.names()[q] == v) && !used_variables@.contains_key(v) by {
                    if v == global_scope.data.names()[tt] {
                        assert(global_scope.data.names()[tt] == v);
                    }
                }
            }
            t = t + 1;
        }
        proof {
            lemma_names_are_keys(&global_scope.data);
            assert forall|v: Seq<char>| #[trigger] unused@.contains_key(v) <==> global_scope.data@.contains_key(v)
                && !self.used_below(self.root(), v) by {
                if global_scope.data@.contains_key(v) {
                    let q = choose|q: int| 0 <= q < global_scope.data.names().len() && global_scope.data.names()[q] == v;
                    assert(global_scope.data.names()[q] == v);
                }
                if exists|q: int| 0 <= q < global_scope.data.names().len() && global_scope.data.names()[q] == v {
                    let q = choose|q: int| 0 <= q < global_scope.data.names().len() && global_scope.data.names()[q] == v;
                    assert(global_scope.data@.contains_key(global_scope.data.names()[q]));
                }
            }
        }
        unused
    }

    /// Sets the variable `updated_var`, in the closest scope from
    /// `start_scope_index` that defines it, to `new_value`, and puts on
    /// top of `pending` the work that the change sets off: notifying that
    /// scope, and then checking the graph.
    pub fn update_value(
        &mut self,
        pending: &mut PendingUpdates<E>,
        start_scope_index: ScopeIndex,
        updated_var: &VarName,
        new_value: String,
    ) -> (r: Result<(), ScopeGraphError>)
        requires
            old(self).wf(),
        ensures
            final(self).wf(),
            final(self).root() == old(self).root(),
            final(self).next_index() == old(self).next_index(),
            final(self).scopes().dom() == old(self).scopes().dom(),
            forall|i: ScopeIndex| #[trigger] final(self).inherits_from(i) == old(self).inherits_from(i),
            forall|i: ScopeIndex| #[trigger] final(self).inherited_references(i) == old(self).inherited_references(i),
            forall|i: ScopeIndex| #[trigger] final(self).created_by(i) == old(self).created_by(i),
            forall|i: ScopeIndex| #[trigger] final(self).attribute_edges(i) == old(self).attribute_edges(i),
            match old(self).defining_scope(start_scope_index, updated_var@) {
                None => {
                    &&& r == Err::<(), ScopeGraphError>(ScopeGraphError::VariableNotInScope(*updated_var))
                    &&& final(self).scopes() == old(self).scopes()
                    &&& final(pending)@ == old(pending)@
                },
                Some(d) => {
                    &&& r is Ok
                    &&& final(pending)@ == old(pending)@.push(UpdateStep::Validate).push(
                        UpdateStep::Notify { scope: d, var: *updated_var })
                    &&& forall|k: u32| k != d.0 && #[trigger] old(self).scopes().contains_key(k)
                        ==> final(self).scopes()[k] == old(self).scopes()[k]
                    &&& final(self).scopes()[d.0].data@ == old(self).scopes()[d.0].data@.insert(updated_var@, new_value)
                    &&& final(self).scopes()[d.0].name == old(self).scopes()[d.0].name
                    &&& final(self).scopes()[d.0].ancestor == old(self).scopes()[d.0].ancestor
                    &&& final(self).scopes()[d.0].listeners == old(self).scopes()[d.0].listeners
                    &&& final(self).scopes()[d.0].node_index == old(self).scopes()[d.0].node_index
                    &&& forall|i: ScopeIndex, v: Seq<char>| #[trigger] final(self).lookup(i, v)
                        == if v == updated_var@ && old(self).defining_scope(i, v) == Some(d) {
                            Some(new_value)
                        } else {
                            old(self).lookup(i, v)
                        }
                },
            },
            old(self).valid() ==> final(self).valid(),
    {
        let found = self.graph.find_scope_with_variable(start_scope_index, updated_var);
        let scope_index = match found {
            None => {
                return Err(ScopeGraphError::VariableNotInScope(updated_var.copy()));
            },
            Some(i) => i,
        };
        proof {
            self.graph.lemma_defining_scope_defines(start_scope_index, updated_var@);
        }
        let ghost g0 = self.graph;
        match self.graph.scope_at_mut(scope_index) {
            Some(scope) => {
                scope.data.insert(updated_var.copy(), new_value);
            },
            None => {
                assert(false);
            },
        }
        proof {
            let g = self.graph;
            assert(g.scopes@.dom() =~= g0.scopes@.dom());
            assert forall|k: u32| #[trigger] g.scopes@.contains_key(k) implies g.scopes@[k].data@.dom() == g0.scopes@[k].data@.dom() by {
                if k == scope_index.0 {
                    assert(g.scopes@[k].data@.dom() =~= g0.scopes@[k].data@.dom());
                }
            }
            assert(g.same_shape(&g0));
            assert forall|i: ScopeIndex, v: Seq<char>| #[trigger] self.lookup(i, v)
                == if v == updated_var@ && old(self).defining_scope(i, v) == Some(scope_index) {
                    Some(new_value)
                } else {
                    old(self).lookup(i, v)
                } by {
                g.lemma_same_shape(&g0, i, v);
                g0.lemma_defining_scope_defines(i, v);
            }
        }
        pending.push(UpdateStep::Validate);
        pending.push(UpdateStep::Notify { scope: scope_index, var: updated_var.copy() });
        Ok(())
    }

    /// Like [Self::update_value], for a variable of the global scope.
    pub fn update_global_value(&mut self, pending: &mut PendingUpdates<E>, var_name: &VarName, value: String) -> (r: Result<(), ScopeGraphError>)
        requires
            old(self).wf(),
        ensures
            final(self).wf(),
            final(self).root() == old(self).root(),
            final(self).next_index() == old(self).next_index(),
            final(self).scopes().dom() == old(self).scopes().dom(),
            forall|i: ScopeIndex| #[trigger] final(self).inherits_from(i) == old(self).inherits_from(i),
            forall|i: ScopeIndex| #[trigger] final(self).inherited_references(i) == old(self).inherited_references(i),
            forall|i: ScopeIndex| #[trigger] final(self).created_by(i) == old(self).created_by(i),
            forall|i: ScopeIndex| #[trigger] final(self).attribute_edges(i) == old(self).attribute_edges(i),
            match old(self).defining_scope(old(self).root(), var_name@) {
                None => {
                    &&& r == Err::<(), ScopeGraphError>(ScopeGraphError::VariableNotInScope(*var_name))
                    &&& final(self).scopes() == old(self).scopes()
                    &&& final(pending)@ == old(pending)@
                },
                Some(d) => {
                    &&& r is Ok
                    &&& final(pending)@ == old(pending)@.push(UpdateStep::Validate).push(
                        UpdateStep::Notify { scope: d, var: *var_name })
                    &&& forall|k: u32| k != d.0 && #[trigger] old(self).scopes().contains_key(k)
                        ==> final(self).scopes()[k] == old(self).scopes()[k]
                    &&& final(self).scopes()[d.0].data@ == old(self).scopes()[d.0].data@.insert(var_name@, value)
                    &&& forall|i: ScopeIndex, v: Seq<char>| #[trigger] final(self).lookup(i, v)
                        == if v == var_name@ && old(self).defining_scope(i, v) == Some(d) {
                            Some(value)
                        } else {
                            old(self).lookup(i, v)
                        }
                },
            },
            old(self).valid() ==> final(self).valid(),
    {
        let root = self.root_index;
        self.update_value(pending, root, var_name, value)
    }

    /// The scopes of the graph with their indices, each once.
    pub fn scope_list(&self) -> (r: Vec<(ScopeIndex, &Scope)>)
        ensures
            forall|k: int| 0 <= k < r@.len() ==> #[trigger] self.scopes().contains_key(r@[k].0.0) && *r@[k].1 == self.scopes()[r@[k].0.0],
            forall|i: u32| #[trigger] self.scopes().contains_key(i) ==> exists|k: int| 0 <= k < r@.len() && #[trigger] r@[k].0.0 == i,
    {
        let mut v: Vec<(ScopeIndex, &Scope)> = Vec::new();
        let ghost entries = self.graph.scopes.iter().remaining();
        for entry in iter: self.graph.scopes.iter()
            invariant
                iter.seq() == entries,
                entries == self.graph.scopes.iter().remaining(),
                v@.len() == iter.index(),
                forall|k: int| 0 <= k < v@.len() ==> #[trigger] v@[k] == (ScopeIndex(*entries[k].0), entries[k].1),
        {
            let ghost i = iter.index() as int;
            proof {
                assert(entries[i] == entry);
            }
            v.push((ScopeIndex(*entry.0), entry.1));
        }
        proof {
            assert forall|k: int| 0 <= k < v@.len() implies #[trigger] self.scopes().contains_key(v@[k].0.0)
                && *v@[k].1 == self.scopes()[v@[k].0.0] by {
                assert(self.graph.scopes@.contains_key(*entries[k].0));
            }
            assert forall|i: u32| #[trigger] self.scopes().contains_key(i) implies exists|k: int| 0 <= k < v@.len()
                && #[trigger] v@[k].0.0 == i by {
                assert(entries.contains((&i, &self.graph.scopes@[i])));
                let k = choose|k: int| 0 <= k < entries.len() && entries[k] == (&i, &self.graph.scopes@[i]);
                assert(v@[k].0.0 == i);
            }
        }
        v
    }

    /// Each scope created by another one, with the scope that created it and
    /// the attribute edges between them, each once.
    pub fn hierarchy_edge_list(&self) -> (r: Vec<(ScopeIndex, ScopeIndex, &Vec<ProvidesAttrEdge<E>>)>)
        ensures
            forall|k: int| 0 <= k < r@.len() ==> #[trigger] self.created_by(r@[k].0) == Some(r@[k].1)
                && r@[k].2@ == self.attribute_edges(r@[k].0),
            forall|i: ScopeIndex| #[trigger] self.created_by(i) is Some ==> exists|k: int| 0 <= k < r@.len() && #[trigger] r@[k].0 == i,
    {
        let edges = self.graph.hierarchy_edges.edge_list();
        let mut r: Vec<(ScopeIndex, ScopeIndex, &Vec<ProvidesAttrEdge<E>>)> = Vec::new();
        let mut i: usize = 0;
        while i < edges.len()
            invariant
                0 <= i <= edges@.len(),
                r@.len() == i,
                forall|k: int| 0 <= k < edges@.len() ==> #[trigger] self.graph.hierarchy_edges@.contains_key(edges@[k].0)
                    && self.graph.hierarchy_edges@[edges@[k].0].0 == edges@[k].1,
                forall|k: int| 0 <= k < i ==> (#[trigger] r@[k]).0.0 == edges@[k].0 && self.created_by(r@[k].0) == Some(r@[k].1)
                    && r@[k].2@ == self.attribute_edges(r@[k].0),
            decreases edges.len() - i,
        {
            let (c, p) = edges[i];
            match self.graph.hierarchy_edges.get_parent_edge_of(ScopeIndex(c)) {
                Some(e) => {
                    r.push((ScopeIndex(c), p, &e.1));
                },
                None => {
                    assert(false);
                },
            }
            i = i + 1;
        }
        proof {
            assert forall|x: ScopeIndex| #[trigger] self.created_by(x) is Some implies exists|k: int| 0 <= k < r@.len()
                && #[trigger] r@[k].0 == x by {
                assert(self.graph.hierarchy_edges@.contains_key(x.0));
                let k = choose|k: int| 0 <= k < edges@.len() && #[trigger] edges@[k].0 == x.0;
                assert(r@[k].0 == x);
            }
        }
        r
    }

    /// Each scope that inherits from another one, with that scope and the
    /// variables referenced through the edge, each once.
    pub fn inheritance_edge_list(&self) -> (r: Vec<(ScopeIndex, ScopeIndex, Vec<VarName>)>)
        requires
            self.wf(),
        ensures
            forall|k: int| 0 <= k < r@.len() ==> #[trigger] self.inherits_from(r@[k].0) == Some(r@[k].1)
                && forall|v: Seq<char>| #[trigger] refs_contain(r@[k].2@, v) <==> self.inherited_references(r@[k].0).contains(v),
            forall|i: ScopeIndex| #[trigger] self.inherits_from(i) is Some ==> exists|k: int| 0 <= k < r@.len() && #[trigger] r@[k].0 == i,
    {
        let edges = self.graph.inheritance_edges.edge_list();
        let mut r: Vec<(ScopeIndex, ScopeIndex, Vec<VarName>)> = Vec::new();
        let mut i: usize = 0;
        while i < edges.len()
            invariant
                self.wf(),
                0 <= i <= edges@.len(),
                r@.len() == i,
                forall|k: int| 0 <= k < edges@.len() ==> #[trigger] self.graph.inheritance_edges@.contains_key(edges@[k].0)
                    && self.graph.inheritance_edges@[edges@[k].0].0 == edges@[k].1,
                forall|k: int| 0 <= k < i ==> (#[trigger] r@[k]).0.0 == edges@[k].0 && self.inherits_from(r@[k].0) == Some(r@[k].1)
                    && forall|v: Seq<char>| #[trigger] refs_contain(r@[k].2@, v) <==> self.inherited_references(r@[k].0).contains(v),
            decreases edges.len() - i,
        {
            let (c, p) = edges[i];
            match self.graph.inheritance_edges.get_parent_edge_of(ScopeIndex(c)) {
                Some(e) => {
                    r.push((ScopeIndex(c), p, e.1.reference_names()));
                },
                None => {
                    assert(false);
                },
            }
            i = i + 1;
        }
        proof {
            assert forall|x: ScopeIndex| #[trigger] self.inherits_from(x) is Some implies exists|k: int| 0 <= k < r@.len()
                && #[trigger] r@[k].0 == x by {
                assert(self.graph.inheritance_edges@.contains_key(x.0));
                let k = choose|k: int| 0 <= k < edges@.len() && #[trigger] edges@[k].0 == x.0;
                assert(r@[k].0 == x);
            }
        }
        r
    }

    /// Registers a listener in scope `scope_index`: every variable it needs is
    /// registered as referenced by the scope, and the listener is added to
    /// the scope. Returns the current values of the needed variables, which
    /// the listener is first called with.
    pub fn register_listener(&mut self, scope_index: ScopeIndex, listener: Listener) -> (r: Result<NameMap<String>, ScopeGraphError>)
        requires
            old(self).wf(),
        ensures
            final(self).wf(),
            final(self).root() == old(self).root(),
            final(self).next_index() == old(self).next_index(),
            final(self).scopes().dom() == old(self).scopes().dom(),
            forall|i: ScopeIndex| #[trigger] final(self).inherits_from(i) == old(self).inherits_from(i),
            forall|i: ScopeIndex| #[trigger] final(self).created_by(i) == old(self).created_by(i),
            forall|i: ScopeIndex| #[trigger] final(self).attribute_edges(i) == old(self).attribute_edges(i),
            r is Ok <==> old(self).scopes().contains_key(scope_index.0) && forall|k: int| 0 <= k < listener.needed_variables@.len()
                ==> old(self).lookup(scope_index, (#[trigger] listener.needed_variables@[k])@) is Some,
            r matches Ok(values) ==> {
                &&& values.wf()
                &&& forall|v: Seq<char>| #[trigger] values@.contains_key(v) <==> refs_contain(listener.needed_variables@, v)
                &&& forall|v: Seq<char>| #[trigger] values@.contains_key(v) ==> old(self).lookup(scope_index, v) == Some(values@[v])
                &&& forall|k: u32| k != scope_index.0 && #[trigger] old(self).scopes().contains_key(k) ==> final(self).scopes()[k] == old(self).scopes()[k]
                &&& final(self).scopes()[scope_index.0].listeners@ == old(self).scopes()[scope_index.0].listeners@.push(listener)
                &&& final(self).scopes()[scope_index.0].name == old(self).scopes()[scope_index.0].name
                &&& final(self).scopes()[scope_index.0].ancestor == old(self).scopes()[scope_index.0].ancestor
                &&& final(self).scopes()[scope_index.0].data == old(self).scopes()[scope_index.0].data
                &&& final(self).scopes()[scope_index.0].node_index == old(self).scopes()[scope_index.0].node_index
                &&& forall|i: ScopeIndex| old(self).inherits_from(i) is Some ==> #[trigger] final(self).inherited_references(i)
                    == old(self).inherited_references(i).union(Set::new(|v: Seq<char>|
                        refs_contain(listener.needed_variables@, v) && old(self).walked(scope_index, v, i)))
            },
            r matches Err(e) ==> final(self).scopes() == old(self).scopes() && (e is ScopeNotInGraph || exists|k: int|
                0 <= k < listener.needed_variables@.len() && old(self).lookup(scope_index, (#[trigger] listener.needed_variables@[k])@) is None
                && e == ScopeGraphError::VariableNotInScope(listener.needed_variables@[k])),
            old(self).valid() ==> final(self).valid(),
    {
        let ghost g0 = self.graph;
        let needed = copy_names(&listener.needed_variables);
        let mut j: usize = 0;
        while j < needed.len()
            invariant
                self.wf(),
                g0 == old(self).graph,
                self.root_index == old(self).root_index,
                needed@ == listener.needed_variables@,
                0 <= j <= needed@.len(),
                forall|jx: int| 0 <= jx < j ==> g0.defining_scope(scope_index, (#[trigger] needed@[jx])@) is Some,
                self.graph.same_chains(&g0),
                self.graph.last_index == g0.last_index,
                self.graph.hierarchy_edges == g0.hierarchy_edges,
                self.graph.inheritance_edges.recorded_parents() == g0.inheritance_edges.recorded_parents(),
                forall|c: u32| #[trigger] self.graph.inheritance_edges@.contains_key(c) ==> self.graph.inheritance_edges@[c].1.references_spec()
                    == g0.inheritance_edges@[c].1.references_spec().union(Set::new(|v: Seq<char>|
                        refs_contain(needed@.take(j as int), v) && g0.walked(scope_index, v, c))),
                g0.valid() ==> self.graph.valid(),
            decreases needed.len() - j,
        {
            let var = needed[j].copy();
            let ghost gb = self.graph;
            proof {
                gb.lemma_same_chains(&g0, scope_index, var@);
                g0.lemma_chain_end_defining(scope_index, var@);
                g0.lemma_defining_scope_defines(scope_index, var@);
            }
            let res = self.graph.register_scope_referencing_variable(scope_index, var);
            match res {
                Err(e) => {
                    proof {
                        assert(self.graph.scopes@ == g0.scopes@);
                        if !(e is ScopeNotInGraph) {
                            assert(g0.defining_scope(scope_index, needed@[j as int]@) is None);
                            assert(e == ScopeGraphError::VariableNotInScope(listener.needed_variables@[j as int]));
                        }
                    }
                    return Err(e);
                },
                Ok(()) => {},
            }
            proof {
                let jj = j as int;
                let w = needed@[jj]@;
                assert(needed@.take(jj + 1) =~= needed@.take(jj).push(needed@[jj]));
                assert forall|v: Seq<char>| refs_contain(needed@.take(jj + 1), v) <==> (refs_contain(needed@.take(jj), v) || v == w) by {
                    if refs_contain(needed@.take(jj + 1), v) {
                        let t = choose|t: int| 0 <= t < needed@.take(jj + 1).len() && #[trigger] needed@.take(jj + 1)[t]@ == v;
                        if t < jj {
                            assert(needed@.take(jj)[t]@ == v);
                        }
                    }
                    if refs_contain(needed@.take(jj), v) {
                        let t = choose|t: int| 0 <= t < needed@.take(jj).len() && #[trigger] needed@.take(jj)[t]@ == v;
                        assert(needed@.take(jj + 1)[t]@ == v);
                    }
                    if v == w {
                        assert(needed@.take(jj + 1)[jj]@ == v);
                    }
                }
                assert forall|c: u32| #[trigger] self.graph.inheritance_edges@.contains_key(c) implies self.graph.inheritance_edges@[c].1.references_spec()
                    == g0.inheritance_edges@[c].1.references_spec().union(Set::new(|v: Seq<char>|
                        refs_contain(needed@.take(jj + 1), v) && g0.walked(scope_index, v, c))) by {
                    assert(gb.inheritance_edges@.contains_key(c));
                    assert(gb.walked(scope_index, w, c) == g0.walked(scope_index, w, c));
                    let after = self.graph.inheritance_edges@[c].1.references_spec();
                    let mid = gb.inheritance_edges@[c].1.references_spec();
                    let base = g0.inheritance_edges@[c].1.references_spec();
                    assert forall|v: Seq<char>| after.contains(v) <==> (base.contains(v)
                        || (refs_contain(needed@.take(jj + 1), v) && g0.walked(scope_index, v, c))) by {
                        assert(mid.contains(v) <==> (base.contains(v)
                            || (refs_contain(needed@.take(jj), v) && g0.walked(scope_index, v, c))));
                    }
                    assert(after =~= base.union(Set::new(|v: Seq<char>|
                        refs_contain(needed@.take(jj + 1), v) && g0.walked(scope_index, v, c))));
                }
            }
            j = j + 1;
        }
        proof {
            assert(needed@.take(needed@.len() as int) =~= needed@);
        }
        let ghost g1 = self.graph;
        match self.graph.scope_at_mut(scope_index) {
            None => {
                return Err(ScopeGraphError::ScopeNotInGraph(scope_index));
            },
            Some(scope) => {
                scope.listeners.push(listener);
            },
        }
        proof {
            assert(self.graph.agree_below(&g1, scope_index.0));
            assert forall|k: int| 0 <= k < needed@.len() implies self.lookup(scope_index, (#[trigger] needed@[k])@)
                == old(self).lookup(scope_index, needed@[k]@) by {
                self.graph.lemma_agree_below(&g1, scope_index.0, scope_index, needed@[k]@);
                g1.lemma_same_chains(&g0, scope_index, needed@[k]@);
                g0.lemma_defining_scope_defines(scope_index, needed@[k]@);
            }
        }
        let values = self.lookup_variables_in_scope(scope_index, &needed);
        proof {
            if values is Err {
                let k = choose|k: int| 0 <= k < needed@.len() && self.lookup(scope_index, (#[trigger] needed@[k])@) is None;
                assert(old(self).lookup(scope_index, needed@[k]@) is None);
                g0.lemma_chain_end_defining(scope_index, needed@[k]@);
                assert(false);
            }
            assert forall|v: Seq<char>| refs_contain(needed@, v) implies self.lookup(scope_index, v) == old(self).lookup(scope_index, v) by {
                let k = choose|k: int| 0 <= k < needed@.len() && #[trigger] needed@[k]@ == v;
                assert(self.lookup(scope_index, needed@[k]@) == old(self).lookup(scope_index, needed@[k]@));
            }
        }
        values
    }

    /// Register the fact that a scope is referencing a given variable.
    /// If the scope contains the variable itself, this is a no-op. Otherwise,
    /// the reference is added to the inheritance edges the lookup passes over.
    pub fn register_scope_referencing_variable(&mut self, scope_index: ScopeIndex, var_name: VarName) -> (r: Result<(), ScopeGraphError>)
        requires
            old(self).wf(),
        ensures
            final(self).wf(),
            final(self).root() == old(self).root(),
            final(self).next_index() == old(self).next_index(),
            final(self).scopes() == old(self).scopes(),
            forall|i: ScopeIndex| #[trigger] final(self).inherits_from(i) == old(self).inherits_from(i),
            forall|i: ScopeIndex| #[trigger] final(self).created_by(i) == old(self).created_by(i),
            forall|i: ScopeIndex| #[trigger] final(self).attribute_edges(i) == old(self).attribute_edges(i),
            forall|i: ScopeIndex| old(self).inherits_from(i) is Some ==> #[trigger] final(self).inherited_references(i) == if old(self).walked(scope_index, var_name@, i) {
                old(self).inherited_references(i).insert(var_name@)
            } else {
                old(self).inherited_references(i)
            },
            match old(self).chain_end(scope_index, var_name@) {
                ChainEnd::Defined(_) => r is Ok,
                ChainEnd::Missing(s) => r matches Err(ScopeGraphError::ScopeNotInGraph(t)) && t == s,
                ChainEnd::Orphan => r matches Err(ScopeGraphError::VariableNotInScope(v)) && v == var_name,
            },
            old(self).valid() ==> final(self).valid(),
    {
        let r = self.graph.register_scope_referencing_variable(scope_index, var_name);
        proof {
            assert forall|i: ScopeIndex| #[trigger] self.inherits_from(i) == old(self).inherits_from(i) by {
                if self.graph.inheritance_edges@.contains_key(i.0) {}
            }
        }
        r
    }
}

/// `step` recomputes the attribute `e` that `scope` provides to `target`.
pub open spec fn provide_step<E: Clone>(step: UpdateStep<E>, scope: ScopeIndex, target: ScopeIndex, e: ProvidesAttrEdge<E>) -> bool {
    step matches UpdateStep::ProvideAttribute { source, target: t, edge } && source == scope && t == target && copied_edge(e, edge)
}

/// `step` calls the listener `call` of `scope`.
pub open spec fn listener_step<E>(step: UpdateStep<E>, scope: ScopeIndex, call: (Seq<VarName>, u64)) -> bool {
    step matches UpdateStep::CallListener { scope: s, needed_variables, id } && s == scope
        && needed_variables@ == call.0 && id == call.1
}

impl<E: Clone> ScopeGraph<E> {
    /// `after` is `rest` with the work of a change of `var` in `scope` on
    /// top: notifying the inheriting scopes, then calling the listeners, then
    /// recomputing each attribute that `scope` computes from `var`, each once.
    pub open spec fn notify_steps(&self, rest: Seq<UpdateStep<E>>, scope: ScopeIndex, var: VarName, after: Seq<UpdateStep<E>>) -> bool {
        let n = rest.len() + 2int;
        &&& after.len() >= n
        &&& after.take(n) == rest.push(UpdateStep::Children { scope, var }).push(UpdateStep::Listeners { scope, var })
        &&& forall|q: int| #![trigger after[q]] n <= q < after.len() ==> after[q] is ProvideAttribute && exists|t: ScopeIndex, e: ProvidesAttrEdge<E>|
            self.provides_attribute(scope, var@, t, e) && #[trigger] provide_step(after[q], scope, t, e)
        &&& forall|t: ScopeIndex, e: ProvidesAttrEdge<E>| #[trigger] self.provides_attribute(scope, var@, t, e)
            ==> exists|q: int| n <= q < after.len() && #[trigger] provide_step(after[q], scope, t, e)
    }

    /// `after` is `rest` with a notification of each scope that inherits
    /// `var` from `scope`, each once, on top.
    pub open spec fn children_steps(&self, rest: Seq<UpdateStep<E>>, scope: ScopeIndex, var: VarName, after: Seq<UpdateStep<E>>) -> bool {
        let n = rest.len();
        &&& after.len() >= n
        &&& after.take(n as int) == rest
        &&& after.skip(n as int).no_duplicates()
        &&& forall|q: int| n <= q < after.len() ==> (#[trigger] after[q] matches UpdateStep::Notify { scope: c, var: v }
            && v == var && self.references_through(c, scope, var@))
        &&& forall|c: ScopeIndex| #[trigger] self.references_through(c, scope, var@)
            ==> exists|q: int| n <= q < after.len() && #[trigger] after[q] == (UpdateStep::<E>::Notify { scope: c, var })
    }

    /// `after` is `rest` with the calls of the listeners of `scope` that
    /// `var` triggers on top, the first of them topmost.
    pub open spec fn listener_steps(&self, rest: Seq<UpdateStep<E>>, scope: ScopeIndex, var: VarName, after: Seq<UpdateStep<E>>) -> bool {
        let n = rest.len();
        let calls = triggered(self.scopes()[scope.0].listeners@, var@);
        &&& after.len() == n + calls.len()
        &&& after.take(n as int) == rest
        &&& forall|q: int| 0 <= q < calls.len() ==> listener_step(#[trigger] after[n + q], scope, calls[calls.len() - 1 - q])
    }

    /// Takes the topmost step of `pending`. Steps that need no outside work
    /// put the steps they lead to on the stack; the others hand back what the
    /// caller must do. The graph itself does not change.
    pub fn step(&self, pending: &mut PendingUpdates<E>) -> (r: Result<Option<UpdateAction<E>>, ScopeGraphError>)
        requires
            self.wf(),
        ensures
            old(pending)@.len() == 0 ==> r == Ok::<Option<UpdateAction<E>>, ScopeGraphError>(None) && final(pending)@ == old(pending)@,
            old(pending)@.len() > 0 ==> match old(pending)@.last() {
                UpdateStep::Notify { scope, var } => {
                    &&& r == Ok::<Option<UpdateAction<E>>, ScopeGraphError>(None)
                    &&& self.notify_steps(old(pending)@.drop_last(), scope, var, final(pending)@)
                },
                UpdateStep::ProvideAttribute { source, target, edge } => {
                    &&& final(pending)@ == old(pending)@.drop_last()
                    &&& match r {
                        Ok(Some(UpdateAction::Evaluate { target: t, attr_name, expression, values })) => {
                            &&& t == target
                            &&& attr_name == edge.attr_name
                            &&& expression == edge.expression
                            &&& self.looked_up(source, edge.references@, values)
                        },
                        Ok(_) => false,
                        Err(e) => self.lookup_failed(source, edge.references@, e),
                    }
                },
                UpdateStep::Listeners { scope, var } => if self.scopes().contains_key(scope.0) {
                    &&& r == Ok::<Option<UpdateAction<E>>, ScopeGraphError>(None)
                    &&& self.listener_steps(old(pending)@.drop_last(), scope, var, final(pending)@)
                } else {
                    &&& r == Err::<Option<UpdateAction<E>>, ScopeGraphError>(ScopeGraphError::ScopeNotInGraph(scope))
                    &&& final(pending)@ == old(pending)@.drop_last()
                },
                UpdateStep::CallListener { scope, needed_variables, id } => {
                    &&& final(pending)@ == old(pending)@.drop_last()
                    &&& match r {
                        Ok(Some(UpdateAction::CallListener { id: i, values })) => i == id
                            && self.looked_up(scope, needed_variables@, values),
                        Ok(_) => false,
                        Err(e) => self.lookup_failed(scope, needed_variables@, e),
                    }
                },
                UpdateStep::Children { scope, var } => {
                    &&& r == Ok::<Option<UpdateAction<E>>, ScopeGraphError>(None)
                    &&& self.children_steps(old(pending)@.drop_last(), scope, var, final(pending)@)
                },
                UpdateStep::Validate => {
                    &&& final(pending)@ == old(pending)@.drop_last()
                    &&& (r is Ok <==> self.valid())
                    &&& r is Ok ==> r == Ok::<Option<UpdateAction<E>>, ScopeGraphError>(None)
                },
            },
    {
        let ghost rest = old(pending)@.drop_last();
        match pending.pop() {
            None => Ok(None),
            Some(UpdateStep::Notify { scope, var }) => {
                let edges = self.graph.scopes_getting_attr_using(scope, &var);
                pending.push(UpdateStep::Children { scope, var: var.copy() });
                pending.push(UpdateStep::Listeners { scope, var: var.copy() });
                let ghost n: int = rest.len() + 2int;
                let ghost base = pending@;
                let mut i: usize = edges.len();
                while i > 0
                    invariant
                        self.wf(),
                        i <= edges@.len(),
                        base.len() == n,
                        pending@.len() == n + (edges@.len() - i),
                        pending@.take(n) == base,
                        forall|q: int| n <= q < pending@.len() ==> #[trigger] provide_step(pending@[q], scope,
                            edges@[edges@.len() - 1 - (q - n)].0, *edges@[edges@.len() - 1 - (q - n)].1),
                    decreases i,
                {
                    i = i - 1;
                    let (target, edge) = edges[i];
                    let ghost before = pending@;
                    pending.push(UpdateStep::ProvideAttribute { source: scope, target, edge: edge.copy() });
                    proof {
                        assert(pending@.take(n) =~= before.take(n));
                        assert forall|q: int| n <= q < pending@.len() implies #[trigger] provide_step(pending@[q], scope,
                            edges@[edges@.len() - 1 - (q - n)].0, *edges@[edges@.len() - 1 - (q - n)].1) by {
                            if q < before.len() {
                                assert(pending@[q] == before[q]);
                            }
                        }
                    }
                }
                proof {
                    let after = pending@;
                    let m = edges@.len();
                    assert(base =~= rest.push(UpdateStep::Children { scope, var }).push(UpdateStep::Listeners { scope, var }));
                    assert forall|q: int| #![trigger after[q]] n <= q < after.len() implies after[q] is ProvideAttribute && exists|t: ScopeIndex, e: ProvidesAttrEdge<E>|
                        self.provides_attribute(scope, var@, t, e) && #[trigger] provide_step(after[q], scope, t, e) by {
                        let w = m - 1 - (q - n);
                        assert(self.graph.provides_using(scope, var@, edges@[w].0, *edges@[w].1));
                        assert(provide_step(after[q], scope, edges@[w].0, *edges@[w].1));
                    }
                    assert forall|t: ScopeIndex, e: ProvidesAttrEdge<E>| #[trigger] self.provides_attribute(scope, var@, t, e)
                        implies exists|q: int| n <= q < after.len() && #[trigger] provide_step(after[q], scope, t, e) by {
                        assert(self.graph.provides_using(scope, var@, t, e));
                        let w = choose|w: int| 0 <= w < edges@.len() && #[trigger] edges@[w] == (t, &e);
                        let q = n + (m - 1 - w);
                        assert(provide_step(after[q], scope, edges@[m - 1 - (q - n)].0, *edges@[m - 1 - (q - n)].1));
                        assert(provide_step(after[q], scope, t, e));
                    }
                    assert(self.notify_steps(rest, scope, var, after));
                }
                Ok(None)
            },
            Some(UpdateStep::ProvideAttribute { source, target, edge }) => {
                match self.lookup_variables_in_scope(source, &edge.references) {
                    Err(e) => Err(e),
                    Ok(values) => Ok(Some(UpdateAction::Evaluate {
                        target,
                        attr_name: edge.attr_name,
                        expression: edge.expression,
                        values,
                    })),
                }
            },
            Some(UpdateStep::Listeners { scope, var }) => {
                let content = match self.graph.scope_at(scope) {
                    None => {
                        return Err(ScopeGraphError::ScopeNotInGraph(scope));
                    },
                    Some(content) => content,
                };
                let ls = &content.listeners;
                let mut calls: Vec<UpdateStep<E>> = Vec::new();
                let mut i: usize = 0;
                while i < ls.len()
                    invariant
                        0 <= i <= ls@.len(),
                        forall|q: int| 0 <= q < calls@.len() ==> listener_step(#[trigger] calls@[q], scope, triggered(ls@.take(i as int), var@)[q]),
                        calls@.len() == triggered(ls@.take(i as int), var@).len(),
                    decreases ls.len() - i,
                {
                    let listener = &ls[i];
                    let needed = &listener.needed_variables;
                    let ghost t0 = triggered(ls@.take(i as int), var@);
                    let mut j: usize = 0;
                    while j < needed.len()
                        invariant
                            0 <= i < ls@.len(),
                            *listener == ls@[i as int],
                            needed@ == listener.needed_variables@,
                            0 <= j <= needed@.len(),
                            t0 == triggered(ls@.take(i as int), var@),
                            calls@.len() == t0.len() + occurrences(needed@.take(j as int), var@),
                            forall|q: int| 0 <= q < t0.len() ==> listener_step(#[trigger] calls@[q], scope, t0[q]),
                            forall|q: int| t0.len() <= q < calls@.len() ==> listener_step(#[trigger] calls@[q], scope,
                                (needed@, listener.id)),
                        decreases needed.len() - j,
                    {
                        let ghost before = calls@;
                        proof {
                            assert(needed@.take(j as int + 1).drop_last() =~= needed@.take(j as int));
                        }
                        if needed[j].same(&var) {
                            calls.push(UpdateStep::CallListener { scope, needed_variables: copy_names(needed), id: listener.id });
                            proof {
                                assert forall|q: int| 0 <= q < t0.len() implies listener_step(#[trigger] calls@[q], scope, t0[q]) by {
                                    assert(calls@[q] == before[q]);
                                }
                                assert forall|q: int| t0.len() <= q < calls@.len() implies listener_step(#[trigger] calls@[q], scope,
                                    (needed@, listener.id)) by {
                                    if q < before.len() {
                                        assert(calls@[q] == before[q]);
                                    }
                                }
                            }
                        }
                        j = j + 1;
                    }
                    proof {
                        let ii = i as int;
                        assert(needed@.take(needed@.len() as int) =~= needed@);
                        assert(ls@.take(ii + 1).drop_last() =~= ls@.take(ii));
                        let t1 = triggered(ls@.take(ii + 1), var@);
                        assert(t1 == t0 + Seq::new(occurrences(ls@[ii].needed_variables@, var@),
                            |q: int| (ls@[ii].needed_variables@, ls@[ii].id)));
                        assert forall|q: int| 0 <= q < calls@.len() implies listener_step(#[trigger] calls@[q], scope, t1[q]) by {
                            if q < t0.len() {
                                assert(t1[q] == t0[q]);
                            } else {
                                assert(t1[q] == (needed@, listener.id));
                            }
                        }
                    }
                    i = i + 1;
                }
                proof {
                    assert(ls@.take(ls@.len() as int) =~= ls@);
                }
                let ghost all_calls = calls@;
                let ghost n = rest.len();
                let ghost total = triggered(ls@, var@);
                while calls.len() > 0
                    invariant
                        all_calls.len() == total.len(),
                        forall|q: int| 0 <= q < all_calls.len() ==> listener_step(#[trigger] all_calls[q], scope, total[q]),
                        calls@.len() <= all_calls.len(),
                        calls@ == all_calls.take(calls@.len() as int),
                        pending@.len() == n + (all_calls.len() - calls@.len()),
                        pending@.take(n as int) == rest,
                        forall|q: int| 0 <= q < pending@.len() - n ==> #[trigger] pending@[n + q] == all_calls[all_calls.len() - 1 - q],
                    decreases calls.len(),
                {
                    let ghost before = pending@;
                    let ghost len = calls@.len();
                    let c = calls.pop().unwrap();
                    pending.push(c);
                    proof {
                        assert(c == all_calls[len - 1]);
                        assert(calls@ =~= all_calls.take(len - 1));
                        assert(pending@.take(n as int) =~= before.take(n as int));
                        assert forall|q: int| 0 <= q < pending@.len() - n implies #[trigger] pending@[n + q] == all_calls[all_calls.len() - 1 - q] by {
                            if q < before.len() - n {
                                assert(pending@[n + q] == before[n + q]);
                            }
                        }
                    }
                }
                proof {
                    assert forall|q: int| 0 <= q < total.len() implies listener_step(#[trigger] pending@[n + q], scope, total[total.len() - 1 - q]) by {
                        assert(pending@[n + q] == all_calls[all_calls.len() - 1 - q]);
                    }
                }
                Ok(None)
            },
            Some(UpdateStep::CallListener { scope, needed_variables, id }) => {
                match self.lookup_variables_in_scope(scope, &needed_variables) {
                    Err(e) => Err(e),
                    Ok(values) => Ok(Some(UpdateAction::CallListener { id, values })),
                }
            },
            Some(UpdateStep::Children { scope, var }) => {
                let kids = self.graph.child_scopes_referencing(scope, &var);
                let ghost n = rest.len();
                let mut i: usize = kids.len();
                while i > 0
                    invariant
                        i <= kids@.len(),
                        pending@.len() == n + (kids@.len() - i),
                        pending@.take(n as int) == rest,
                        forall|q: int| n <= q < pending@.len() ==> #[trigger] pending@[q]
                            == (UpdateStep::<E>::Notify { scope: kids@[kids@.len() - 1 - (q - n)], var }),
                    decreases i,
                {
                    i = i - 1;
                    let ghost before = pending@;
                    pending.push(UpdateStep::Notify { scope: kids[i], var: var.copy() });
                    proof {
                        assert(pending@.take(n as int) =~= before.take(n as int));
                        assert forall|q: int| n <= q < pending@.len() implies #[trigger] pending@[q]
                            == (UpdateStep::<E>::Notify { scope: kids@[kids@.len() - 1 - (q - n)], var }) by {
                            if q < before.len() {
                                assert(pending@[q] == before[q]);
                            }
                        }
                    }
                }
                proof {
                    let after = pending@;
                    let m = kids@.len();
                    assert forall|q: int| n <= q < after.len() implies (#[trigger] after[q] matches UpdateStep::Notify { scope: c, var: v }
                        && v == var && self.references_through(c, scope, var@)) by {
                        let w = m - 1 - (q - n);
                        assert(kids@.contains(kids@[w]));
                    }
                    assert forall|c: ScopeIndex| #[trigger] self.references_through(c, scope, var@)
                        implies exists|q: int| n <= q < after.len() && #[trigger] after[q] == (UpdateStep::<E>::Notify { scope: c, var }) by {
                        assert(kids@.contains(c));
                        let w = choose|w: int| 0 <= w < kids@.len() && kids@[w] == c;
                        let q = n + (m - 1 - w);
                        assert(after[q] == (UpdateStep::<E>::Notify { scope: c, var }));
                    }
                    assert forall|a: int, b: int| 0 <= a < b < after.skip(n as int).len() implies
                        after.skip(n as int)[a] != after.skip(n as int)[b] by {
                        assert(after.skip(n as int)[a] == after[n + a]);
                        assert(after.skip(n as int)[b] == after[n + b]);
                        assert(kids@[m - 1 - a] != kids@[m - 1 - b]);
                    }
                }
                Ok(None)
            },
            Some(UpdateStep::Validate) => {
                match self.validate() {
                    Ok(()) => Ok(None),
                    Err(e) => Err(e),
                }
            },
        }
    }
}

/// The scopes that a walk passes over are at most its start.
proof fn lemma_walked_below<E>(g: &ScopeGraphInternal<E>, index: ScopeIndex, var: Seq<char>, c: u32)
    requires
        g.walked(index, var, c),
    ensures
        c <= index.0,
    decreases index.0,
{
    if c != index.0 {
        lemma_walked_below(g, g.inheritance_edges@[index.0].0, var, c);
    }
}

} // verus!

