//! Names of variables and attributes, and small maps keyed by them.

use vstd::prelude::*;

verus! {

/// The name of a variable.
#[derive(Clone, Hash, PartialEq, Eq, Debug)]
pub struct VarName(pub String);

/// The name of an attribute.
#[derive(Clone, Hash, PartialEq, Eq, Debug)]
pub struct AttrName(pub String);

impl View for VarName {
    type V = Seq<char>;

    open spec fn view(&self) -> Seq<char> {
        self.0@
    }
}

impl View for AttrName {
    type V = Seq<char>;

    open spec fn view(&self) -> Seq<char> {
        self.0@
    }
}

impl VarName {
    /// A variable name made from a string slice.
    pub fn from_str_slice(s: &str) -> (n: VarName)
        ensures
            n@ == s@,
    {
        VarName(s.to_owned())
    }

    /// A copy of this name.
    pub fn copy(&self) -> (n: VarName)
        ensures
            n == *self,
    {
        VarName(self.0.clone())
    }

    /// Whether the two names are the same.
    pub fn same(&self, other: &VarName) -> (b: bool)
        ensures
            b == (self@ == other@),
    {
        self.0 == other.0
    }

    /// The attribute of the same name.
    pub fn to_attr_name(&self) -> (n: AttrName)
        ensures
            n@ == self@,
    {
        AttrName(self.0.clone())
    }
}

impl AttrName {
    /// An attribute name made from a string slice.
    pub fn from_str_slice(s: &str) -> (n: AttrName)
        ensures
            n@ == s@,
    {
        AttrName(s.to_owned())
    }

    /// A copy of this name.
    pub fn copy(&self) -> (n: AttrName)
        ensures
            n == *self,
    {
        AttrName(self.0.clone())
    }

    /// The variable of the same name, under which a scope stores the value of
    /// the attribute.
    pub fn to_var_name(&self) -> (n: VarName)
        ensures
            n@ == self@,
    {
        VarName(self.0.clone())
    }
}

/// The map that a sequence of entries denotes: each name mapped to the value
/// of its last entry.
pub open spec fn entries_map<V>(s: Seq<(VarName, V)>) -> Map<Seq<char>, V>
    decreases s.len(),
{
    if s.len() == 0 {
        Map::empty()
    } else {
        entries_map(s.drop_last()).insert(s.last().0@, s.last().1)
    }
}

/// No name occurs in two entries.
pub open spec fn unique_names<V>(s: Seq<(VarName, V)>) -> bool {
    forall|i: int, j: int| 0 <= i < j < s.len() ==> #[trigger] s[i].0@ != #[trigger] s[j].0@
}

/// The names of the entries, in order.
pub open spec fn entry_names<V>(s: Seq<(VarName, V)>) -> Seq<Seq<char>> {
    s.map_values(|e: (VarName, V)| e.0@)
}

pub proof fn lemma_entries_map_contains<V>(s: Seq<(VarName, V)>, k: Seq<char>)
    ensures
        entries_map(s).contains_key(k) <==> exists|i: int| 0 <= i < s.len() && #[trigger] s[i].0@ == k,
    decreases s.len(),
{
    if s.len() > 0 {
        lemma_entries_map_contains(s.drop_last(), k);
        if exists|i: int| 0 <= i < s.len() && #[trigger] s[i].0@ == k {
            let i = choose|i: int| 0 <= i < s.len() && #[trigger] s[i].0@ == k;
            if i < s.len() - 1 {
                assert(s.drop_last()[i].0@ == k);
            }
        }
        if exists|i: int| 0 <= i < s.drop_last().len() && #[trigger] s.drop_last()[i].0@ == k {
            let i = choose|i: int| 0 <= i < s.drop_last().len() && #[trigger] s.drop_last()[i].0@ == k;
            assert(s[i].0@ == k);
        }
    }
}

pub proof fn lemma_entries_map_value<V>(s: Seq<(VarName, V)>, i: int)
    requires
        unique_names(s),
        0 <= i < s.len(),
    ensures
        entries_map(s).contains_key(s[i].0@),
        entries_map(s)[s[i].0@] == s[i].1,
    decreases s.len(),
{
    if i < s.len() - 1 {
        let t = s.drop_last();
        assert(t[i] == s[i]);
        assert(unique_names(t)) by {
            assert forall|a: int, b: int| 0 <= a < b < t.len() implies #[trigger] t[a].0@ != #[trigger] t[b].0@ by {
                assert(t[a] == s[a] && t[b] == s[b]);
            }
        }
        lemma_entries_map_value(t, i);
        assert(s.last().0@ != s[i].0@);
    }
}

pub proof fn lemma_entries_map_update<V>(s: Seq<(VarName, V)>, i: int, n: VarName, v: V)
    requires
        unique_names(s),
        0 <= i < s.len(),
        n@ == s[i].0@,
    ensures
        unique_names(s.update(i, (n, v))),
        entries_map(s.update(i, (n, v))) == entries_map(s).insert(s[i].0@, v),
{
    let t = s.update(i, (n, v));
    assert(unique_names(t)) by {
        assert forall|a: int, b: int| 0 <= a < b < t.len() implies #[trigger] t[a].0@ != #[trigger] t[b].0@ by {
            assert(t[a].0@ == s[a].0@ && t[b].0@ == s[b].0@);
        }
    }
    assert forall|k: Seq<char>| #[trigger] entries_map(t).contains_key(k) == entries_map(s).insert(s[i].0@, v).contains_key(k) by {
        lemma_entries_map_contains(t, k);
        lemma_entries_map_contains(s, k);
        if exists|j: int| 0 <= j < s.len() && #[trigger] s[j].0@ == k {
            let j = choose|j: int| 0 <= j < s.len() && #[trigger] s[j].0@ == k;
            assert(t[j].0@ == k);
        }
        if exists|j: int| 0 <= j < t.len() && #[trigger] t[j].0@ == k {
            let j = choose|j: int| 0 <= j < t.len() && #[trigger] t[j].0@ == k;
            assert(s[j].0@ == k);
        }
        if k == s[i].0@ {
            assert(t[i].0@ == k);
        }
    }
    assert forall|k: Seq<char>| #[trigger] entries_map(t).contains_key(k) implies entries_map(t)[k] == entries_map(s).insert(s[i].0@, v)[k] by {
        lemma_entries_map_contains(t, k);
        let j = choose|j: int| 0 <= j < t.len() && #[trigger] t[j].0@ == k;
        lemma_entries_map_value(t, j);
        if j != i {
            lemma_entries_map_value(s, j);
        }
    }
    assert(entries_map(t) =~= entries_map(s).insert(s[i].0@, v));
}

/// A map from names to values, kept as a vector of entries in which no name
/// occurs twice.
#[derive(Debug)]
pub struct NameMap<V> {
    entries: Vec<(VarName, V)>,
}

impl<V> View for NameMap<V> {
    type V = Map<Seq<char>, V>;

    closed spec fn view(&self) -> Map<Seq<char>, V> {
        entries_map(self.entries@)
    }
}

impl<V> NameMap<V> {
    /// No name occurs in two entries.
    pub closed spec fn wf(&self) -> bool {
        unique_names(self.entries@)
    }

    /// The names of the map, in the order in which they were added.
    pub closed spec fn names(&self) -> Seq<Seq<char>> {
        entry_names(self.entries@)
    }

    /// The empty map.
    pub fn new() -> (m: Self)
        ensures
            m.wf(),
            m@ == Map::<Seq<char>, V>::empty(),
            m.names() == Seq::<Seq<char>>::empty(),
    {
        let m = NameMap { entries: Vec::new() };
        assert(m.names() =~= Seq::<Seq<char>>::empty());
        m
    }

    /// The number of names in the map.
    pub fn len(&self) -> (n: usize)
        requires
            self.wf(),
        ensures
            n == self.names().len(),
    {
        self.entries.len()
    }

    /// The position of `name` among the entries.
    fn position(&self, name: &VarName) -> (r: Option<usize>)
        requires
            self.wf(),
        ensures
            match r {
                Some(i) => i < self.entries@.len() && self.entries@[i as int].0@ == name@,
                None => forall|i: int| 0 <= i < self.entries@.len() ==> #[trigger] self.entries@[i].0@ != name@,
            },
    {
        let mut i: usize = 0;
        while i < self.entries.len()
            invariant
                i <= self.entries@.len(),
                forall|j: int| 0 <= j < i ==> #[trigger] self.entries@[j].0@ != name@,
            decreases self.entries.len() - i,
        {
            if self.entries[i].0.same(name) {
                return Some(i);
            }
            i = i + 1;
        }
        None
    }

    /// Whether `name` is in the map.
    pub fn contains_key(&self, name: &VarName) -> (b: bool)
        requires
            self.wf(),
        ensures
            b == self@.contains_key(name@),
    {
        proof {
            lemma_entries_map_contains(self.entries@, name@);
        }
        self.position(name).is_some()
    }

    /// The value of `name`, if it is in the map.
    pub fn get(&self, name: &VarName) -> (r: Option<&V>)
        requires
            self.wf(),
        ensures
            match r {
                Some(v) => self@.contains_key(name@) && *v == self@[name@],
                None => !self@.contains_key(name@),
            },
    {
        proof {
            lemma_entries_map_contains(self.entries@, name@);
        }
        match self.position(name) {
            Some(i) => {
                proof {
                    lemma_entries_map_value(self.entries@, i as int);
                }
                Some(&self.entries[i].1)
            },
            None => None,
        }
    }

    /// Sets the value of `name`: in place when it is in the map, else as a
    /// new last entry.
    pub fn insert(&mut self, name: VarName, value: V)
        requires
            old(self).wf(),
        ensures
            final(self).wf(),
            final(self)@ == old(self)@.insert(name@, value),
            old(self)@.contains_key(name@) ==> final(self).names() == old(self).names(),
            !old(self)@.contains_key(name@) ==> final(self).names() == old(self).names().push(name@),
    {
        proof {
            lemma_entries_map_contains(self.entries@, name@);
        }
        match self.position(&name) {
            Some(i) => {
                let ghost before = self.entries@;
                let ghost k = name@;
                proof {
                    lemma_entries_map_update(before, i as int, name, value);
                }
                self.entries.set(i, (name, value));
                proof {
                    assert(self.entries@ =~= before.update(i as int, (name, value)));
                    assert(self.names() =~= old(self).names());
                }
            },
            None => {
                let ghost before = self.entries@;
                self.entries.push((name, value));
                proof {
                    assert(self.entries@.drop_last() =~= before);
                    assert(unique_names(self.entries@)) by {
                        assert forall|a: int, b: int| 0 <= a < b < self.entries@.len() implies #[trigger] self.entries@[a].0@ != #[trigger] self.entries@[b].0@ by {
                            if b == self.entries@.len() - 1 {
                                assert(self.entries@[a] == before[a]);
                            } else {
                                assert(self.entries@[a] == before[a] && self.entries@[b] == before[b]);
                            }
                        }
                    }
                    assert(self.names() =~= old(self).names().push(name@));
                }
            },
        }
    }

    /// Removes `name` from the map and returns its value, if it was there.
    pub fn remove(&mut self, name: &VarName) -> (r: Option<V>)
        requires
            old(self).wf(),
        ensures
            final(self).wf(),
            final(self)@ == old(self)@.remove(name@),
            match r {
                Some(v) => old(self)@.contains_key(name@) && v == old(self)@[name@],
                None => !old(self)@.contains_key(name@),
            },
    {
        proof {
            lemma_entries_map_contains(self.entries@, name@);
        }
        match self.position(name) {
            None => {
                proof {
                    assert(self@ =~= old(self)@.remove(name@));
                }
                None
            },
            Some(i) => {
                let ghost s = self.entries@;
                proof {
                    lemma_entries_map_value(s, i as int);
                }
                let (_, v) = self.entries.remove(i);
                proof {
                    let t = self.entries@;
                    assert(t =~= s.remove(i as int));
                    assert forall|a: int| 0 <= a < t.len() implies #[trigger] t[a] == s[if a < i { a } else { a + 1 }] by {}
                    assert(unique_names(t)) by {
                        assert forall|a: int, b: int| 0 <= a < b < t.len() implies #[trigger] t[a].0@ != #[trigger] t[b].0@ by {
                            let a2 = if a < i { a } else { a + 1 };
                            let b2 = if b < i { b } else { b + 1 };
                            assert(t[a] == s[a2] && t[b] == s[b2]);
                        }
                    }
                    assert forall|k: Seq<char>| #[trigger] entries_map(t).contains_key(k) == entries_map(s).remove(name@).contains_key(k) by {
                        lemma_entries_map_contains(t, k);
                        lemma_entries_map_contains(s, k);
                        if exists|j: int| 0 <= j < t.len() && #[trigger] t[j].0@ == k {
                            let j = choose|j: int| 0 <= j < t.len() && #[trigger] t[j].0@ == k;
                            let j2 = if j < i { j } else { j + 1 };
                            assert(s[j2].0@ == k);
                            assert(j2 != i);
                        }
                        if k != name@ && exists|j: int| 0 <= j < s.len() && #[trigger] s[j].0@ == k {
                            let j = choose|j: int| 0 <= j < s.len() && #[trigger] s[j].0@ == k;
                            assert(j != i);
                            let j1 = if j < i { j } else { j - 1 };
                            assert(t[j1].0@ == k);
                        }
                    }
                    assert forall|k: Seq<char>| #[trigger] entries_map(t).contains_key(k) implies entries_map(t)[k] == entries_map(s)[k] by {
                        lemma_entries_map_contains(t, k);
                        let j = choose|j: int| 0 <= j < t.len() && #[trigger] t[j].0@ == k;
                        let j2 = if j < i { j } else { j + 1 };
                        lemma_entries_map_value(t, j);
                        lemma_entries_map_value(s, j2);
                    }
                    assert(entries_map(t) =~= entries_map(s).remove(name@));
                }
                Some(v)
            },
        }
    }

    /// The name of the entry at position `i`.
    pub fn name_at(&self, i: usize) -> (n: &VarName)
        requires
            self.wf(),
            i < self.names().len(),
        ensures
            n@ == self.names()[i as int],
            self@.contains_key(n@),
    {
        proof {
            lemma_entries_map_contains(self.entries@, self.entries@[i as int].0@);
        }
        &self.entries[i].0
    }

    /// The value of the entry at position `i`.
    pub fn value_at(&self, i: usize) -> (v: &V)
        requires
            self.wf(),
            i < self.names().len(),
        ensures
            *v == self@[self.names()[i as int]],
    {
        proof {
            lemma_entries_map_value(self.entries@, i as int);
        }
        &self.entries[i].1
    }
}

proof fn lemma_entries_map_dom_len<V>(s: Seq<(VarName, V)>)
    requires
        unique_names(s),
    ensures
        entries_map(s).dom().finite(),
        entries_map(s).dom().len() == s.len(),
    decreases s.len(),
{
    if s.len() > 0 {
        let t = s.drop_last();
        assert(unique_names(t)) by {
            assert forall|a: int, b: int| 0 <= a < b < t.len() implies #[trigger] t[a].0@ != #[trigger] t[b].0@ by {
                assert(t[a] == s[a] && t[b] == s[b]);
            }
        }
        lemma_entries_map_dom_len(t);
        lemma_entries_map_contains(t, s.last().0@);
        if entries_map(t).contains_key(s.last().0@) {
            let i = choose|i: int| 0 <= i < t.len() && #[trigger] t[i].0@ == s.last().0@;
            assert(s[i].0@ == s[s.len() - 1].0@);
        }
        assert(entries_map(s).dom() =~= entries_map(t).dom().insert(s.last().0@));
    }
}

/// The names of a map are exactly its keys, each once.
pub proof fn lemma_names_are_keys<V>(m: &NameMap<V>)
    requires
        m.wf(),
    ensures
        m.names().no_duplicates(),
        forall|k: Seq<char>| #[trigger] m@.contains_key(k) <==> m.names().contains(k),
        m.names().len() == m@.dom().len(),
        m@.dom().finite(),
{
    let s = m.entries@;
    let n = m.names();
    assert(n.len() == s.len());
    assert forall|i: int| 0 <= i < s.len() implies #[trigger] n[i] == s[i].0@ by {}
    assert forall|i: int, j: int| 0 <= i < n.len() && 0 <= j < n.len() && i != j implies n[i] != n[j] by {
        if i < j {
            assert(s[i].0@ != s[j].0@);
        } else {
            assert(s[j].0@ != s[i].0@);
        }
    }
    assert forall|k: Seq<char>| #[trigger] m@.contains_key(k) <==> n.contains(k) by {
        lemma_entries_map_contains(s, k);
        if n.contains(k) {
            let i = choose|i: int| 0 <= i < n.len() && n[i] == k;
            assert(s[i].0@ == k);
        }
        if m@.contains_key(k) {
            let i = choose|i: int| 0 <= i < s.len() && #[trigger] s[i].0@ == k;
            assert(n[i] == k);
        }
    }
    lemma_entries_map_dom_len(s);
}

} // verus!
