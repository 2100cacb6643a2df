//! A map of a one-to-n relationship: each child has at most one parent, and
//! the edge from a child to its parent carries data.

use std::collections::hash_map::Entry;
use std::collections::{HashMap, HashSet};
use vstd::prelude::*;
use vstd::std_specs::iter::IteratorSpec;

verus! {

/// What `OneToNElementsMap` reports when an operation fails.
#[derive(Debug, PartialEq, Eq, Clone, Copy, Structural)]
pub enum OneToNError {
    /// `insert` was asked to give a parent to a child that already has one.
    ChildAlreadyHasParent,
    /// `validate` found `child` among the children of `parent`, but the
    /// child's own entry names `found` as its parent.
    ParentMismatch { parent: usize, child: usize, found: usize },
    /// `validate` found `child` among the children of `parent`, but the
    /// child has no entry of its own.
    MissingChild { parent: usize, child: usize },
}

/// A map that represents a structure of a 1-n relationship with edges that
/// contain data. It is stored in both directions: from each child to its
/// parent and edge, and from each parent to the set of its children.
#[derive(Debug)]
pub struct OneToNElementsMap<T> {
    child_to_parent: HashMap<usize, (usize, T)>,
    parent_to_children: HashMap<usize, HashSet<usize>>,
}

impl<T> View for OneToNElementsMap<T> {
    type V = Map<usize, (usize, T)>;

    /// The edges: each child mapped to its parent and the edge's data.
    closed spec fn view(&self) -> Map<usize, (usize, T)> {
        self.child_to_parent@
    }
}

impl<T> OneToNElementsMap<T> {
    /// The two directions of the map describe the same edges.
    pub closed spec fn wf(&self) -> bool {
        &&& forall|c: usize| #[trigger]
            self.child_to_parent@.contains_key(c) ==> {
                let p = self.child_to_parent@[c].0;
                &&& self.parent_to_children@.contains_key(p)
                &&& self.parent_to_children@[p]@.contains(c)
            }
        &&& forall|p: usize, c: usize| #[trigger]
            self.parent_to_children@.contains_key(p) && #[trigger] self.parent_to_children@[p]@.contains(
                c,
            ) ==> self.child_to_parent@.contains_key(c) && self.child_to_parent@[c].0 == p
    }

    /// The parent of `index`, if it has one.
    pub open spec fn parent_spec(&self, index: usize) -> Option<usize> {
        if self@.contains_key(index) {
            Some(self@[index].0)
        } else {
            None
        }
    }

    /// The children of `index`.
    pub open spec fn children_spec(&self, index: usize) -> Set<usize> {
        Set::new(|c: usize| self@.contains_key(c) && self@[c].0 == index)
    }

    /// The map without edges.
    pub fn new() -> (m: Self)
        ensures
            m.wf(),
            m@ == Map::<usize, (usize, T)>::empty(),
    {
        OneToNElementsMap { child_to_parent: HashMap::new(), parent_to_children: HashMap::new() }
    }

    /// Removes all edges.
    pub fn clear(&mut self)
        ensures
            final(self).wf(),
            final(self)@ == Map::<usize, (usize, T)>::empty(),
    {
        self.child_to_parent.clear();
        self.parent_to_children.clear();
    }

    /// Adds the edge `child -> parent` with data `edge`, unless `child`
    /// already has a parent; then nothing changes.
    pub fn insert(&mut self, child: usize, parent: usize, edge: T) -> (r: Result<(), OneToNError>)
        requires
            old(self).wf(),
        ensures
            final(self).wf(),
            old(self)@.contains_key(child) ==> r == Err::<(), OneToNError>(
                OneToNError::ChildAlreadyHasParent,
            ) && final(self)@ == old(self)@,
            !old(self)@.contains_key(child) ==> r is Ok && final(self)@ == old(self)@.insert(
                child,
                (parent, edge),
            ),
    {
        if self.child_to_parent.contains_key(&child) {
            return Err(OneToNError::ChildAlreadyHasParent);
        }
        self.child_to_parent.insert(child, (parent, edge));
        let mut children = match self.parent_to_children.remove(&parent) {
            Some(set) => set,
            None => HashSet::new(),
        };
        children.insert(child);
        self.parent_to_children.insert(parent, children);
        Ok(())
    }

    /// Removes `scope` as a parent and as a child: the edges from its
    /// children to it, and the edge from it to its parent.
    pub fn remove(&mut self, scope: usize)
        requires
            old(self).wf(),
        ensures
            final(self).wf(),
            forall|c: usize|
                #![trigger final(self)@.contains_key(c)]
                final(self)@.contains_key(c) <==> (old(self)@.contains_key(c) && c != scope
                    && old(self)@[c].0 != scope),
            forall|c: usize| #[trigger]
                final(self)@.contains_key(c) ==> final(self)@[c] == old(self)@[c],
    {
        let ghost old_self = *self;
        match self.parent_to_children.remove(&scope) {
            Some(children) => {
                let ghost p2c1 = self.parent_to_children@;
                let ghost order = children.iter().remaining().unref();
                assert(order.to_set() == children@);
                for child in iter: children.iter()
                    invariant
                        iter.seq().unref() == order,
                        self.parent_to_children@ == p2c1,
                        forall|c: usize| #[trigger]
                            self.child_to_parent@.contains_key(c) <==> (
                            old_self.child_to_parent@.contains_key(c) && !order.take(
                                iter.index() as int,
                            ).contains(c)),
                        forall|c: usize| #[trigger]
                            self.child_to_parent@.contains_key(c)
                                ==> self.child_to_parent@[c] == old_self.child_to_parent@[c],
                {
                    let ghost i = iter.index() as int;
                    self.child_to_parent.remove(child);
                    proof {
                        assert(*child == order[i]);
                        lemma_take_push_contains(order, i);
                    }
                }
                proof {
                    assert(order.take(order.len() as int) =~= order);
                    assert forall|c: usize| order.contains(c) <==> children@.contains(c) by {
                        if order.contains(c) {
                            assert(order.to_set().contains(c));
                        }
                        if children@.contains(c) {
                            assert(order.to_set().contains(c));
                        }
                    }
                }
            },
            None => {},
        }
        let ghost c2p1 = self.child_to_parent@;
        let ghost p2c1 = self.parent_to_children@;
        assert(forall|c: usize| #[trigger]
            c2p1.contains_key(c) <==> (old_self.child_to_parent@.contains_key(c)
                && old_self.child_to_parent@[c].0 != scope));
        assert(!p2c1.contains_key(scope));
        assert(forall|p: usize| p != scope ==> #[trigger] p2c1.contains_key(p) == old_self.parent_to_children@.contains_key(p) && p2c1[p] == old_self.parent_to_children@[p]);
        match self.child_to_parent.remove(&scope) {
            Some((parent, _)) => {
                assert(parent != scope);
                assert(p2c1.contains_key(parent));
                match self.parent_to_children.remove(&parent) {
                    Some(mut set) => {
                        set.remove(&scope);
                        self.parent_to_children.insert(parent, set);
                    },
                    None => {},
                }
            },
            None => {},
        }
        proof {
            let c2p = self.child_to_parent@;
            let p2c = self.parent_to_children@;
            assert forall|c: usize| #[trigger] c2p.contains_key(c) implies p2c.contains_key(c2p[c].0)
                && p2c[c2p[c].0]@.contains(c) by {
                assert(c2p1.contains_key(c));
                assert(old_self.child_to_parent@.contains_key(c));
                let p = c2p[c].0;
                assert(old_self.parent_to_children@.contains_key(p));
                assert(old_self.parent_to_children@[p]@.contains(c));
            }
            assert forall|p: usize, c: usize|
                #[trigger] p2c.contains_key(p) && #[trigger] p2c[p]@.contains(c) implies c2p.contains_key(c)
                && c2p[c].0 == p by {
                assert(p != scope);
                assert(old_self.parent_to_children@.contains_key(p));
                assert(old_self.parent_to_children@[p]@.contains(c));
                assert(old_self.child_to_parent@.contains_key(c));
                assert(old_self.child_to_parent@[c].0 == p);
            }
        }
    }

    /// The parent of `index`, if it has one.
    pub fn get_parent_of(&self, index: usize) -> (r: Option<usize>)
        ensures
            r == self.parent_spec(index),
    {
        match self.child_to_parent.get(&index) {
            Some(entry) => Some(entry.0),
            None => None,
        }
    }

    /// The parent of `index` and the data of the edge to it, if it has a parent.
    pub fn get_parent_edge_of(&self, index: usize) -> (r: Option<&(usize, T)>)
        ensures
            match r {
                Some(e) => self@.contains_key(index) && *e == self@[index],
                None => !self@.contains_key(index),
            },
    {
        self.child_to_parent.get(&index)
    }

    /// Mutable access to the parent of `index` and the data of the edge to it.
    /// The map stays well formed as long as the parent is left as it is.
    pub fn get_parent_edge_mut(&mut self, index: usize) -> (r: Option<&mut (usize, T)>)
        requires
            old(self).wf(),
        ensures
            match r {
                Some(e) => {
                    &&& old(self)@.contains_key(index)
                    &&& *e == old(self)@[index]
                    &&& final(self)@ == old(self)@.insert(index, *final(e))
                    &&& final(e).0 == old(self)@[index].0 ==> final(self).wf()
                },
                None => {
                    &&& !old(self)@.contains_key(index)
                    &&& final(self)@ == old(self)@
                    &&& final(self).wf()
                },
            },
    {
        match self.child_to_parent.entry(index) {
            Entry::Occupied(occ) => Some(occ.into_mut()),
            Entry::Vacant(_) => None,
        }
    }

    /// The children of `index`.
    pub fn get_children_of(&self, index: usize) -> (r: HashSet<usize>)
        requires
            self.wf(),
        ensures
            r@ == self.children_spec(index),
    {
        let mut result: HashSet<usize> = HashSet::new();
        match self.parent_to_children.get(&index) {
            Some(children) => {
                let ghost order = children.iter().remaining().unref();
                assert(order.to_set() == children@);
                for child in iter: children.iter()
                    invariant
                        iter.seq().unref() == order,
                        result@ == order.take(iter.index() as int).to_set(),
                {
                    let ghost i = iter.index() as int;
                    result.insert(*child);
                    proof {
                        assert(*child == order[i]);
                        assert(order.take(i + 1) =~= order.take(i).push(*child));
                        lemma_take_push_contains(order, i);
                        assert(result@ =~= order.take(i + 1).to_set());
                    }
                }
                proof {
                    assert(order.take(order.len() as int) =~= order);
                    assert(result@ =~= self.children_spec(index));
                }
            },
            None => {
                assert(result@ =~= self.children_spec(index));
            },
        }
        result
    }

    /// The children of `index` in a vector, each once.
    fn children_list(&self, index: usize) -> (v: Vec<usize>)
        requires
            self.wf(),
        ensures
            v@.no_duplicates(),
            v@.to_set() == self.children_spec(index),
    {
        let mut kids: Vec<usize> = Vec::new();
        match self.parent_to_children.get(&index) {
            Some(children) => {
                let ghost order = children.iter().remaining().unref();
                assert(order.to_set() == children@);
                assert(order.no_duplicates());
                for child in iter: children.iter()
                    invariant
                        iter.seq().unref() == order,
                        kids@ == order.take(iter.index() as int),
                {
                    proof {
                        assert(*child == order[iter.index() as int]);
                    }
                    kids.push(*child);
                    proof {
                        assert(kids@ =~= order.take(iter.index() + 1));
                    }
                }
                proof {
                    assert(order.take(order.len() as int) =~= order);
                    assert(self.children_spec(index) =~= order.to_set());
                }
            },
            None => {
                assert(self.children_spec(index) =~= Set::<usize>::empty());
                assert(kids@.to_set() =~= Set::<usize>::empty());
            },
        }
        kids
    }

    /// The children of `index`, each with the data of its edge to `index`.
    /// Each child occurs once, in the order in which the set of children is walked.
    pub fn get_children_edges_of(&self, index: usize) -> (r: Vec<(usize, &T)>)
        requires
            self.wf(),
        ensures
            r@.len() == self.children_spec(index).len(),
            forall|i: int|
                0 <= i < r@.len() ==> #[trigger] self.children_spec(index).contains(r@[i].0)
                    && *r@[i].1 == self@[r@[i].0].1,
            forall|i: int, j: int| 0 <= i < j < r@.len() ==> #[trigger] r@[i].0 != #[trigger] r@[j].0,
            forall|c: usize| #[trigger]
                self.children_spec(index).contains(c) ==> exists|i: int|
                    0 <= i < r@.len() && #[trigger] r@[i].0 == c,
    {
        let kids = self.children_list(index);
        let ghost order = kids@;
        let mut result: Vec<(usize, &T)> = Vec::new();
        let mut k: usize = 0;
        while k < kids.len()
            invariant
                self.wf(),
                kids@ == order,
                self.children_spec(index) == order.to_set(),
                k <= kids.len(),
                result@.len() == k,
                forall|i: int|
                    #![trigger result@[i]]
                    0 <= i < k ==> result@[i].0 == order[i] && *result@[i].1 == self@[order[i]].1,
            decreases kids.len() - k,
        {
            let child = kids[k];
            proof {
                assert(order.to_set().contains(child));
            }
            match self.child_to_parent.get(&child) {
                Some(entry) => {
                    result.push((child, &entry.1));
                },
                None => {
                    assert(false);
                },
            }
            k = k + 1;
        }
        proof {
            order.unique_seq_to_set();
            assert forall|c: usize| #[trigger]
                self.children_spec(index).contains(c) implies exists|i: int|
                    0 <= i < result@.len() && #[trigger] result@[i].0 == c by {
                assert(order.to_set().contains(c));
                let j = choose|j: int| 0 <= j < order.len() && #[trigger] order[j] == c;
                assert(result@[j].0 == c);
            }
            assert forall|i: int|
                0 <= i < result@.len() implies #[trigger] self.children_spec(index).contains(result@[i].0)
                && *result@[i].1 == self@[result@[i].0].1 by {
                assert(order.to_set().contains(order[i]));
            }
            assert forall|i: int, j: int| 0 <= i < j < result@.len() implies #[trigger] result@[i].0
                != #[trigger] result@[j].0 by {
                assert(result@[i].0 == order[i]);
                assert(result@[j].0 == order[j]);
            }
        }
        result
    }

    /// The children recorded under `parent` in the direction from parents
    /// to children.
    pub closed spec fn recorded_children(&self, parent: usize) -> Set<usize> {
        if self.parent_to_children@.contains_key(parent) {
            self.parent_to_children@[parent]@
        } else {
            Set::empty()
        }
    }

    /// Every child recorded under a parent names that parent as its own.
    pub open spec fn children_point_back(&self) -> bool {
        forall|p: usize, c: usize| #[trigger] self.recorded_children(p).contains(c) ==> self.parent_spec(c) == Some(p)
    }

    /// Checks that every child recorded under a parent names that parent as
    /// its own, and reports a child that does not. A well-formed map always
    /// passes.
    pub fn validate(&self) -> (r: Result<(), OneToNError>)
        ensures
            r is Ok <==> self.children_point_back(),
            self.wf() ==> r is Ok,
            match r {
                Ok(()) => true,
                Err(OneToNError::MissingChild { parent, child }) => self.recorded_children(parent).contains(child)
                    && self.parent_spec(child) is None,
                Err(OneToNError::ParentMismatch { parent, child, found }) => self.recorded_children(parent).contains(
                    child,
                ) && self.parent_spec(child) == Some(found) && found != parent,
                Err(OneToNError::ChildAlreadyHasParent) => false,
            },
    {
        proof {
            if self.wf() {
                assert forall|p: usize, c: usize| #[trigger] self.recorded_children(p).contains(c) implies self.parent_spec(
                    c,
                ) == Some(p) by {
                    assert(self.parent_to_children@.contains_key(p));
                }
            }
        }
        let ghost entries = self.parent_to_children.iter().remaining();
        for entry in iter: self.parent_to_children.iter()
            invariant
                iter.seq() == entries,
                entries == self.parent_to_children.iter().remaining(),
                forall|j: int, c: usize|
                    0 <= j < iter.index() && #[trigger] (*entries[j].1)@.contains(c) ==> self.parent_spec(c) == Some(
                        *entries[j].0,
                    ),
        {
            let (parent, children) = entry;
            let ghost i = iter.index() as int;
            proof {
                assert(entries[i] == entry);
                assert(self.parent_to_children@.contains_key(*entries[i].0));
                assert(self.parent_to_children@[*entries[i].0] == *entries[i].1);
            }
            let ghost order = children.iter().remaining().unref();
            assert(order.to_set() == children@);
            for child in iter2: children.iter()
                invariant
                    self.parent_to_children@.contains_key(*parent),
                    self.parent_to_children@[*parent] == *children,
                    iter2.seq().unref() == order,
                    order.to_set() == children@,
                    forall|j: int| 0 <= j < iter2.index() ==> #[trigger] self.parent_spec(order[j]) == Some(*parent),
            {
                proof {
                    let j = iter2.index() as int;
                    assert(*child == order[j]);
                    assert(order.to_set().contains(*child));
                    assert(self.recorded_children(*parent).contains(*child));
                }
                match self.child_to_parent.get(child) {
                    Some(found) => {
                        if found.0 != *parent {
                            return Err(
                                OneToNError::ParentMismatch { parent: *parent, child: *child, found: found.0 },
                            );
                        }
                    },
                    None => {
                        return Err(OneToNError::MissingChild { parent: *parent, child: *child });
                    },
                }
            }
            proof {
                assert forall|c: usize| #[trigger] (*entries[i].1)@.contains(c) implies self.parent_spec(c) == Some(
                    *entries[i].0,
                ) by {
                    assert(order.to_set().contains(c));
                    let j = choose|j: int| 0 <= j < order.len() && order[j] == c;
                    assert(self.parent_spec(order[j]) == Some(*parent));
                }
            }
        }
        proof {
            assert forall|p: usize, c: usize| #[trigger] self.recorded_children(p).contains(c) implies self.parent_spec(
                c,
            ) == Some(p) by {
                assert(self.parent_to_children@.contains_key(p));
                assert(entries.contains((&p, &self.parent_to_children@[p])));
                let j = choose|j: int| 0 <= j < entries.len() && entries[j] == (&p, &self.parent_to_children@[p]);
                assert((*entries[j].1)@.contains(c));
            }
        }
        Ok(())
    }
}

pub(crate) proof fn lemma_take_push_contains<A>(s: Seq<A>, i: int)
    requires
        0 <= i < s.len(),
    ensures
        forall|c: A| #[trigger]
            s.take(i + 1).contains(c) <==> (s.take(i).contains(c) || c == s[i]),
{
    assert forall|c: A| #[trigger] s.take(i + 1).contains(c) <==> (s.take(i).contains(c) || c == s[i]) by {
        if s.take(i).contains(c) {
            let k = choose|k: int| 0 <= k < s.take(i).len() && #[trigger] s.take(i)[k] == c;
            assert(s.take(i + 1)[k] == c);
        }
        if c == s[i] {
            assert(s.take(i + 1)[i] == c);
        }
        if s.take(i + 1).contains(c) {
            let k = choose|k: int| 0 <= k < s.take(i + 1).len() && #[trigger] s.take(i + 1)[k] == c;
            if k < i {
                assert(s.take(i)[k] == c);
            }
        }
    }
}

} // verus!
