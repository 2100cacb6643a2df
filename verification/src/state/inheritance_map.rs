//! The one-to-n map of the scope graph: each scope has at most one parent
//! scope, and the edge from a scope to its parent carries data.

use std::collections::hash_map::Entry;
use std::collections::{HashMap, HashSet};
use vstd::prelude::*;
use vstd::std_specs::iter::IteratorSpec;
use crate::one_to_n_elements_map::{lemma_take_push_contains, OneToNError};
use crate::state::scope_graph::ScopeIndex;

verus! {

/// A map that represents a structure of a 1-n relationship with edges that
/// contain data. It is stored in both directions: from each child to its
/// parent and edge, and from each parent to the set of its children.
#[derive(Debug)]
pub struct OneToNElementsMap<Data> {
    child_to_parent: HashMap<u32, (ScopeIndex, Data)>,
    parent_to_children: HashMap<u32, HashSet<u32>>,
}

impl<Data> View for OneToNElementsMap<Data> {
    type V = Map<u32, (ScopeIndex, Data)>;

    /// The edges: each child mapped to its parent and the edge's data.
    closed spec fn view(&self) -> Map<u32, (ScopeIndex, Data)> {
        self.child_to_parent@
    }
}

impl<Data> OneToNElementsMap<Data> {
    /// The two directions of the map describe the same edges.
    pub closed spec fn wf(&self) -> bool {
        &&& forall|c: u32| #[trigger]
            self.child_to_parent@.contains_key(c) ==> {
                let p = self.child_to_parent@[c].0.0;
                &&& self.parent_to_children@.contains_key(p)
                &&& self.parent_to_children@[p]@.contains(c)
            }
        &&& forall|p: u32, c: u32| #[trigger]
            self.parent_to_children@.contains_key(p) && #[trigger] self.parent_to_children@[p]@.contains(
                c,
            ) ==> self.child_to_parent@.contains_key(c) && self.child_to_parent@[c].0.0 == p
    }

    /// The scopes under which the map keeps a set of children; it may be
    /// empty, and every parent of an edge is among them.
    pub closed spec fn recorded_parents(&self) -> Set<u32> {
        self.parent_to_children@.dom()
    }

    /// Every parent of an edge has a recorded set of children.
    pub proof fn lemma_parents_recorded(&self)
        requires
            self.wf(),
        ensures
            forall|c: u32| #[trigger]
                self@.contains_key(c) ==> self.recorded_parents().contains(self@[c].0.0),
    {
    }

    /// The parent of `index`, if it has one.
    pub open spec fn parent_spec(&self, index: ScopeIndex) -> Option<ScopeIndex> {
        if self@.contains_key(index.0) {
            Some(self@[index.0].0)
        } else {
            None
        }
    }

    /// The children of `index`.
    pub open spec fn children_spec(&self, index: ScopeIndex) -> Set<u32> {
        Set::new(|c: u32| self@.contains_key(c) && self@[c].0 == index)
    }

    /// The map without edges.
    pub fn new() -> (m: Self)
        ensures
            m.wf(),
            m@ == Map::<u32, (ScopeIndex, Data)>::empty(),
            m.recorded_parents() == Set::<u32>::empty(),
    {
        OneToNElementsMap { child_to_parent: HashMap::new(), parent_to_children: HashMap::new() }
    }

    /// Removes all edges.
    pub fn clear(&mut self)
        ensures
            final(self).wf(),
            final(self)@ == Map::<u32, (ScopeIndex, Data)>::empty(),
            final(self).recorded_parents() == Set::<u32>::empty(),
    {
        self.child_to_parent.clear();
        self.parent_to_children.clear();
    }

    /// Adds the edge `child -> parent` with data `edge`, unless `child`
    /// already has a parent; then nothing changes.
    pub fn insert(&mut self, child: ScopeIndex, parent: ScopeIndex, edge: Data) -> (r: Result<(), OneToNError>)
        requires
            old(self).wf(),
        ensures
            final(self).wf(),
            old(self)@.contains_key(child.0) ==> r == Err::<(), OneToNError>(
                OneToNError::ChildAlreadyHasParent,
            ) && final(self)@ == old(self)@ && final(self).recorded_parents()
                == old(self).recorded_parents(),
            !old(self)@.contains_key(child.0) ==> r is Ok && final(self)@ == old(self)@.insert(
                child.0,
                (parent, edge),
            ) && final(self).recorded_parents() == old(self).recorded_parents().insert(parent.0),
    {
        if self.child_to_parent.contains_key(&child.0) {
            return Err(OneToNError::ChildAlreadyHasParent);
        }
        self.child_to_parent.insert(child.0, (parent, edge));
        let mut children = match self.parent_to_children.remove(&parent.0) {
            Some(set) => set,
            None => HashSet::new(),
        };
        children.insert(child.0);
        self.parent_to_children.insert(parent.0, children);
        Ok(())
    }

    /// Removes `scope` as a parent and as a child: the edges from its
    /// children to it, and the edge from it to its parent.
    pub fn remove(&mut self, scope: ScopeIndex)
        requires
            old(self).wf(),
        ensures
            final(self).wf(),
            forall|c: u32|
                #![trigger final(self)@.contains_key(c)]
                final(self)@.contains_key(c) <==> (old(self)@.contains_key(c) && c != scope.0
                    && old(self)@[c].0 != scope),
            forall|c: u32| #[trigger]
                final(self)@.contains_key(c) ==> final(self)@[c] == old(self)@[c],
            final(self).recorded_parents() == old(self).recorded_parents().remove(scope.0),
    {
        let ghost old_self = *self;
        match self.parent_to_children.remove(&scope.0) {
            Some(children) => {
                let ghost p2c1 = self.parent_to_children@;
                let ghost order = children.iter().remaining().unref();
                assert(order.to_set() == children@);
                for child in iter: children.iter()
                    invariant
                        iter.seq().unref() == order,
                        self.parent_to_children@ == p2c1,
                        forall|c: u32| #[trigger]
                            self.child_to_parent@.contains_key(c) <==> (
                            old_self.child_to_parent@.contains_key(c) && !order.take(
                                iter.index() as int,
                            ).contains(c)),
                        forall|c: u32| #[trigger]
                            self.child_to_parent@.contains_key(c)
                                ==> self.child_to_parent@[c] == old_self.child_to_parent@[c],
                {
                    let ghost i = iter.index() as int;
                    self.child_to_parent.remove(child);
                    proof {
                        assert(*child == order[i]);
                        lemma_take_push_contains(order, i);
                    }
                }
                proof {
                    assert(order.take(order.len() as int) =~= order);
                    assert forall|c: u32| order.contains(c) <==> children@.contains(c) by {
                        if order.contains(c) {
                            assert(order.to_set().contains(c));
                        }
                        if children@.contains(c) {
                            assert(order.to_set().contains(c));
                        }
                    }
                }
            },
            None => {},
        }
        let ghost c2p1 = self.child_to_parent@;
        let ghost p2c1 = self.parent_to_children@;
        assert(forall|c: u32| #[trigger]
            c2p1.contains_key(c) <==> (old_self.child_to_parent@.contains_key(c)
                && old_self.child_to_parent@[c].0.0 != scope.0));
        assert(!p2c1.contains_key(scope.0));
        assert(forall|p: u32|
            p != scope.0 ==> #[trigger] p2c1.contains_key(p)
                == old_self.parent_to_children@.contains_key(p) && p2c1[p]
                == old_self.parent_to_children@[p]);
        match self.child_to_parent.remove(&scope.0) {
            Some((parent, _)) => {
                assert(parent.0 != scope.0);
                assert(p2c1.contains_key(parent.0));
                match self.parent_to_children.remove(&parent.0) {
                    Some(mut set) => {
                        set.remove(&scope.0);
                        self.parent_to_children.insert(parent.0, set);
                    },
                    None => {},
                }
            },
            None => {},
        }
        proof {
            let c2p = self.child_to_parent@;
            let p2c = self.parent_to_children@;
            assert forall|c: u32| #[trigger] c2p.contains_key(c) implies p2c.contains_key(
                c2p[c].0.0,
            ) && p2c[c2p[c].0.0]@.contains(c) by {
                assert(c2p1.contains_key(c));
                assert(old_self.child_to_parent@.contains_key(c));
                let p = c2p[c].0.0;
                assert(old_self.parent_to_children@.contains_key(p));
                assert(old_self.parent_to_children@[p]@.contains(c));
            }
            assert forall|p: u32, c: u32|
                #[trigger] p2c.contains_key(p) && #[trigger] p2c[p]@.contains(c) implies c2p.contains_key(
                c,
            ) && c2p[c].0.0 == p by {
                assert(p != scope.0);
                assert(old_self.parent_to_children@.contains_key(p));
                assert(old_self.parent_to_children@[p]@.contains(c));
                assert(old_self.child_to_parent@.contains_key(c));
                assert(old_self.child_to_parent@[c].0.0 == p);
            }
            assert(self.recorded_parents() =~= old_self.recorded_parents().remove(scope.0));
            assert forall|c: u32|
                #![trigger self@.contains_key(c)]
                self@.contains_key(c) <==> (old_self@.contains_key(c) && c != scope.0
                    && old_self@[c].0 != scope) by {
                if old_self@.contains_key(c) {
                    assert((old_self@[c].0 != scope) == (old_self@[c].0.0 != scope.0));
                }
            }
        }
    }

    /// The parent of `index`, if it has one.
    pub fn get_parent_of(&self, index: ScopeIndex) -> (r: Option<ScopeIndex>)
        ensures
            r == self.parent_spec(index),
    {
        match self.child_to_parent.get(&index.0) {
            Some(entry) => Some(entry.0),
            None => None,
        }
    }

    /// The parent of `index` and the data of the edge to it, if it has one.
    pub(crate) fn get_parent_edge_of(&self, index: ScopeIndex) -> (r: Option<&(ScopeIndex, Data)>)
        ensures
            match r {
                Some(e) => self@.contains_key(index.0) && *e == self@[index.0],
                None => !self@.contains_key(index.0),
            },
    {
        self.child_to_parent.get(&index.0)
    }

    /// Mutable access to the parent of `index` and the data of the edge to it.
    /// The map stays well formed as long as the parent is left as it is.
    pub fn get_parent_edge_mut(&mut self, index: ScopeIndex) -> (r: Option<&mut (ScopeIndex, Data)>)
        requires
            old(self).wf(),
        ensures
            match r {
                Some(e) => {
                    &&& old(self)@.contains_key(index.0)
                    &&& *e == old(self)@[index.0]
                    &&& final(self)@ == old(self)@.insert(index.0, *final(e))
                    &&& final(e).0 == old(self)@[index.0].0 ==> final(self).wf()
                    &&& final(self).recorded_parents() == old(self).recorded_parents()
                },
                None => {
                    &&& !old(self)@.contains_key(index.0)
                    &&& final(self)@ == old(self)@
                    &&& final(self).wf()
                    &&& final(self).recorded_parents() == old(self).recorded_parents()
                },
            },
    {
        match self.child_to_parent.entry(index.0) {
            Entry::Occupied(occ) => Some(occ.into_mut()),
            Entry::Vacant(_) => None,
        }
    }

    /// The children of `index` in a vector, each once.
    pub(crate) fn children_list(&self, index: ScopeIndex) -> (v: Vec<u32>)
        requires
            self.wf(),
        ensures
            v@.no_duplicates(),
            v@.to_set() == self.children_spec(index),
    {
        let mut kids: Vec<u32> = Vec::new();
        match self.parent_to_children.get(&index.0) {
            Some(children) => {
                let ghost order = children.iter().remaining().unref();
                assert(order.to_set() == children@);
                assert(order.no_duplicates());
                for child in iter: children.iter()
                    invariant
                        iter.seq().unref() == order,
                        kids@ == order.take(iter.index() as int),
                {
                    proof {
                        assert(*child == order[iter.index() as int]);
                    }
                    kids.push(*child);
                    proof {
                        assert(kids@ =~= order.take(iter.index() + 1));
                    }
                }
                proof {
                    assert(order.take(order.len() as int) =~= order);
                    assert(self.children_spec(index) =~= order.to_set());
                }
            },
            None => {
                assert(self.children_spec(index) =~= Set::<u32>::empty());
                assert(kids@.to_set() =~= Set::<u32>::empty());
            },
        }
        kids
    }

    /// The recorded parents, each once.
    pub(crate) fn recorded_parent_list(&self) -> (v: Vec<u32>)
        ensures
            v@.to_set() == self.recorded_parents(),
    {
        let mut v: Vec<u32> = Vec::new();
        let ghost entries = self.parent_to_children.iter().remaining();
        for entry in iter: self.parent_to_children.iter()
            invariant
                iter.seq() == entries,
                entries == self.parent_to_children.iter().remaining(),
                v@ == entries.take(iter.index() as int).map_values(|e: (&u32, &HashSet<u32>)| *e.0),
        {
            let ghost i = iter.index() as int;
            v.push(*entry.0);
            proof {
                assert(entries[i] == entry);
                assert(v@ =~= entries.take(i + 1).map_values(|e: (&u32, &HashSet<u32>)| *e.0));
            }
        }
        proof {
            assert(entries.take(entries.len() as int) =~= entries);
            assert forall|p: u32| #[trigger] v@.to_set().contains(p) <==> self.recorded_parents().contains(p) by {
                if v@.contains(p) {
                    let k = choose|k: int| 0 <= k < v@.len() && v@[k] == p;
                    assert(self.parent_to_children@.contains_key(*entries[k].0));
                }
                if self.parent_to_children@.contains_key(p) {
                    assert(entries.contains((&p, &self.parent_to_children@[p])));
                    let k = choose|k: int| 0 <= k < entries.len() && entries[k] == (&p, &self.parent_to_children@[p]);
                    assert(v@[k] == p);
                }
            }
            assert(v@.to_set() =~= self.recorded_parents());
        }
        v
    }

    /// Every child with its parent, each child once.
    pub(crate) fn edge_list(&self) -> (v: Vec<(u32, ScopeIndex)>)
        ensures
            forall|k: int| 0 <= k < v@.len() ==> #[trigger] self@.contains_key(v@[k].0) && self@[v@[k].0].0 == v@[k].1,
            forall|c: u32| #[trigger] self@.contains_key(c) ==> exists|k: int| 0 <= k < v@.len() && #[trigger] v@[k].0 == c,
    {
        let mut v: Vec<(u32, ScopeIndex)> = Vec::new();
        let ghost entries = self.child_to_parent.iter().remaining();
        for entry in iter: self.child_to_parent.iter()
            invariant
                iter.seq() == entries,
                entries == self.child_to_parent.iter().remaining(),
                v@.len() == iter.index(),
                forall|k: int| 0 <= k < v@.len() ==> #[trigger] v@[k] == (*entries[k].0, entries[k].1.0),
        {
            let ghost i = iter.index() as int;
            proof {
                assert(entries[i] == entry);
            }
            v.push((*entry.0, (entry.1).0));
        }
        proof {
            assert forall|k: int| 0 <= k < v@.len() implies #[trigger] self@.contains_key(v@[k].0) && self@[v@[k].0].0 == v@[k].1 by {
                assert(self.child_to_parent@.contains_key(*entries[k].0));
            }
            assert forall|c: u32| #[trigger] self@.contains_key(c) implies exists|k: int| 0 <= k < v@.len() && #[trigger] v@[k].0 == c by {
                assert(entries.contains((&c, &self.child_to_parent@[c])));
                let k = choose|k: int| 0 <= k < entries.len() && entries[k] == (&c, &self.child_to_parent@[c]);
                assert(v@[k].0 == c);
            }
        }
        v
    }

    /// The children of `index`, each with the data of its edge to `index`.
    /// Each child occurs once, in the order in which the set of children is walked.
    pub fn child_scope_edges(&self, index: ScopeIndex) -> (r: Vec<(ScopeIndex, &Data)>)
        requires
            self.wf(),
        ensures
            r@.len() == self.children_spec(index).len(),
            forall|i: int|
                #![trigger r@[i]]
                0 <= i < r@.len() ==> self.children_spec(index).contains(r@[i].0.0)
                    && *r@[i].1 == self@[r@[i].0.0].1,
            forall|i: int, j: int| 0 <= i < j < r@.len() ==> #[trigger] r@[i].0 != #[trigger] r@[j].0,
            forall|c: u32| #[trigger]
                self.children_spec(index).contains(c) ==> exists|i: int|
                    0 <= i < r@.len() && #[trigger] r@[i].0.0 == c,
    {
        let kids = self.children_list(index);
        let ghost order = kids@;
        let mut result: Vec<(ScopeIndex, &Data)> = Vec::new();
        let mut k: usize = 0;
        while k < kids.len()
            invariant
                self.wf(),
                kids@ == order,
                self.children_spec(index) == order.to_set(),
                k <= kids.len(),
                result@.len() == k,
                forall|i: int|
                    #![trigger result@[i]]
                    0 <= i < k ==> result@[i].0.0 == order[i] && *result@[i].1 == self@[order[i]].1,
            decreases kids.len() - k,
        {
            let child = kids[k];
            proof {
                assert(order.to_set().contains(child));
            }
            match self.child_to_parent.get(&child) {
                Some(entry) => {
                    result.push((ScopeIndex(child), &entry.1));
                },
                None => {
                    assert(false);
                },
            }
            k = k + 1;
        }
        proof {
            order.unique_seq_to_set();
            assert forall|c: u32| #[trigger]
                self.children_spec(index).contains(c) implies exists|i: int|
                    0 <= i < result@.len() && #[trigger] result@[i].0.0 == c by {
                assert(order.to_set().contains(c));
                let j = choose|j: int| 0 <= j < order.len() && #[trigger] order[j] == c;
                assert(result@[j].0.0 == c);
            }
            assert forall|i: int|
                #![trigger result@[i]]
                0 <= i < result@.len() implies self.children_spec(index).contains(result@[i].0.0)
                && *result@[i].1 == self@[result@[i].0.0].1 by {
                assert(order.to_set().contains(order[i]));
            }
            assert forall|i: int, j: int| 0 <= i < j < result@.len() implies #[trigger] result@[i].0
                != #[trigger] result@[j].0 by {
                assert(result@[i].0.0 == order[i]);
                assert(result@[j].0.0 == order[j]);
            }
        }
        result
    }
}

} // verus!
