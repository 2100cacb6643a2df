//! The daemon's book of windows: for each instance id, the arguments that
//! its window was opened with, and whether it is open, failed to open, or
//! neither. The daemon does the work with GTK; this book decides what is
//! open, what is closed first, and what a reload opens again.

use vstd::prelude::*;
use crate::names::{NameMap, VarName, lemma_names_are_keys};
use crate::state::scope_graph::ScopeIndex;
use crate::window_arguments::WindowArguments;

verus! {

/// What became of a window whose arguments are kept.
#[derive(Debug)]
pub enum WindowStatus {
    /// No window is shown, and a reload of the configuration leaves it so.
    Closed,
    /// The window is shown; `scope_index` is its scope in the scope graph.
    Open { scope_index: ScopeIndex },
    /// The window is meant to be open but could not be opened; a reload of
    /// the configuration tries again.
    Failed,
}

/// The arguments of a window instance, and what became of it.
#[derive(Debug)]
pub struct WindowEntry {
    pub args: WindowArguments,
    pub status: WindowStatus,
}

/// Why the book refused a request.
#[derive(Debug)]
pub enum WindowRegistryError {
    /// A window was to be closed that is not open.
    NotOpen { instance_id: String },
    /// A window was to be opened again whose arguments were not kept.
    MissingArguments { instance_id: String },
}

/// What a command that may toggle a window does with it.
#[derive(Debug, PartialEq, Eq, Structural)]
pub enum WindowAction {
    Open,
    Close,
}

/// Whether the window `id` is open in `m`.
pub open spec fn is_open_in(m: Map<Seq<char>, WindowEntry>, id: Seq<char>) -> bool {
    m.contains_key(id) && m[id].status is Open
}

/// Whether the window `id` failed to open in `m`.
pub open spec fn is_failed_in(m: Map<Seq<char>, WindowEntry>, id: Seq<char>) -> bool {
    m.contains_key(id) && m[id].status is Failed
}

/// The scope of the window `id`, if it is open in `m`.
pub open spec fn open_scope(m: Map<Seq<char>, WindowEntry>, id: Seq<char>) -> Option<ScopeIndex> {
    if m.contains_key(id) {
        match m[id].status {
            WindowStatus::Open { scope_index } => Some(scope_index),
            _ => None,
        }
    } else {
        None
    }
}

/// The book once a window is about to be opened with `args`: its arguments
/// are kept, and an instance of the same id that was open is closed.
pub open spec fn after_begin_open(m: Map<Seq<char>, WindowEntry>, args: WindowArguments) -> Map<Seq<char>, WindowEntry> {
    m.insert(args.instance_id@, WindowEntry { args: args, status: WindowStatus::Closed })
}

/// The book once the attempt to open the window `id` is over: open in the
/// scope `scope`, or failed when there is none.
pub open spec fn after_finish_open(m: Map<Seq<char>, WindowEntry>, id: Seq<char>, scope: Option<ScopeIndex>) -> Map<Seq<char>, WindowEntry> {
    if m.contains_key(id) {
        let status = match scope {
            Some(s) => WindowStatus::Open { scope_index: s },
            None => WindowStatus::Failed,
        };
        m.insert(id, WindowEntry { args: m[id].args, status: status })
    } else {
        m
    }
}

/// The book once the window `id` is closed: with `auto_reopen` it is kept
/// as failed, to be opened again; else it is forgotten, arguments and all.
/// A window that is not open leaves the book as it is.
pub open spec fn after_close(m: Map<Seq<char>, WindowEntry>, id: Seq<char>, auto_reopen: bool) -> Map<Seq<char>, WindowEntry> {
    if is_open_in(m, id) {
        if auto_reopen {
            m.insert(id, WindowEntry { args: m[id].args, status: WindowStatus::Failed })
        } else {
            m.remove(id)
        }
    } else {
        m
    }
}

/// The book once the window `id` is about to be opened again with its kept
/// arguments.
pub open spec fn after_begin_reopen(m: Map<Seq<char>, WindowEntry>, id: Seq<char>) -> Map<Seq<char>, WindowEntry> {
    if m.contains_key(id) {
        m.insert(id, WindowEntry { args: m[id].args, status: WindowStatus::Closed })
    } else {
        m
    }
}

/// The book once every open window is closed on shutdown: the arguments and
/// the failed windows stay.
pub open spec fn after_stop(m: Map<Seq<char>, WindowEntry>) -> Map<Seq<char>, WindowEntry> {
    Map::new(
        |k: Seq<char>| m.contains_key(k),
        |k: Seq<char>|
            if m[k].status is Open {
                WindowEntry { args: m[k].args, status: WindowStatus::Closed }
            } else {
                m[k]
            },
    )
}

/// The windows of the daemon, keyed by instance id. When no id is given on
/// the command line the id is the window's name, so only one window of a
/// name can be open then.
#[derive(Debug)]
pub struct WindowRegistry {
    windows: NameMap<WindowEntry>,
}

impl View for WindowRegistry {
    type V = Map<Seq<char>, WindowEntry>;

    closed spec fn view(&self) -> Map<Seq<char>, WindowEntry> {
        self.windows@
    }
}

/// The status of a window that has just been opened in `scope`, or failed.
fn status_after(scope: Option<ScopeIndex>) -> (s: WindowStatus)
    ensures
        s == (match scope {
            Some(i) => WindowStatus::Open { scope_index: i },
            None => WindowStatus::Failed,
        }),
{
    match scope {
        Some(i) => WindowStatus::Open { scope_index: i },
        None => WindowStatus::Failed,
    }
}

impl WindowRegistry {
    /// The map behind the book is well formed.
    pub closed spec fn wf(&self) -> bool {
        self.windows.wf()
    }

    /// The instance ids of the book, in the order in which they came.
    pub closed spec fn ids(&self) -> Seq<Seq<char>> {
        self.windows.names()
    }

    /// A book without windows.
    pub fn new() -> (r: Self)
        ensures
            r.wf(),
            r@ == Map::<Seq<char>, WindowEntry>::empty(),
    {
        WindowRegistry { windows: NameMap::new() }
    }

    /// Whether the window `instance_id` is open.
    pub fn is_open(&self, instance_id: &str) -> (b: bool)
        requires
            self.wf(),
        ensures
            b == is_open_in(self@, instance_id@),
    {
        let key = VarName::from_str_slice(instance_id);
        match self.windows.get(&key) {
            Some(entry) => match entry.status {
                WindowStatus::Open { .. } => true,
                _ => false,
            },
            None => false,
        }
    }

    /// The arguments that the window `instance_id` was last opened with, if
    /// they are kept.
    pub fn arguments(&self, instance_id: &str) -> (r: Option<&WindowArguments>)
        requires
            self.wf(),
        ensures
            match r {
                Some(a) => self@.contains_key(instance_id@) && *a == self@[instance_id@].args,
                None => !self@.contains_key(instance_id@),
            },
    {
        let key = VarName::from_str_slice(instance_id);
        match self.windows.get(&key) {
            Some(entry) => Some(&entry.args),
            None => None,
        }
    }

    /// What a command does with the window `instance_id`: with
    /// `should_toggle`, an open window is closed; else the window is opened
    /// (again).
    pub fn action_for(&self, instance_id: &str, should_toggle: bool) -> (r: WindowAction)
        requires
            self.wf(),
        ensures
            r == (if should_toggle && is_open_in(self@, instance_id@) {
                WindowAction::Close
            } else {
                WindowAction::Open
            }),
    {
        if should_toggle && self.is_open(instance_id) {
            WindowAction::Close
        } else {
            WindowAction::Open
        }
    }

    /// Keeps `args` before their window is opened. An instance of the same
    /// id that is open is closed: its scope is returned, for the caller to
    /// tear its window down first.
    pub fn begin_open(&mut self, args: WindowArguments) -> (r: Option<ScopeIndex>)
        requires
            old(self).wf(),
        ensures
            final(self).wf(),
            final(self)@ == after_begin_open(old(self)@, args),
            r == open_scope(old(self)@, args.instance_id@),
    {
        let key = VarName::from_str_slice(args.instance_id.as_str());
        let ghost id = args.instance_id@;
        let previous = self.windows.remove(&key);
        let r = match previous {
            Some(entry) => match entry.status {
                WindowStatus::Open { scope_index } => Some(scope_index),
                _ => None,
            },
            None => None,
        };
        let ghost entry = WindowEntry { args: args, status: WindowStatus::Closed };
        self.windows.insert(key, WindowEntry { args, status: WindowStatus::Closed });
        proof {
            assert(self.windows@ =~= old(self)@.insert(id, entry));
        }
        r
    }

    /// Records how the attempt to open the window `instance_id` ended: open
    /// in the scope `scope`, or failed when there is none. An id that the
    /// book does not hold leaves it as it is.
    pub fn finish_open(&mut self, instance_id: &str, scope: Option<ScopeIndex>)
        requires
            old(self).wf(),
        ensures
            final(self).wf(),
            final(self)@ == after_finish_open(old(self)@, instance_id@, scope),
    {
        let key = VarName::from_str_slice(instance_id);
        match self.windows.remove(&key) {
            Some(entry) => {
                let status = status_after(scope);
                self.windows.insert(key, WindowEntry { args: entry.args, status });
                proof {
                    assert(self.windows@ =~= after_finish_open(old(self)@, instance_id@, scope));
                }
            },
            None => {
                proof {
                    assert(self.windows@ =~= old(self)@);
                }
            },
        }
    }

    /// Closes the window `instance_id` in the book and returns its scope,
    /// for the caller to tear the window down. With `auto_reopen` the
    /// window is kept as failed, to be opened again; else it is forgotten.
    /// A window that is not open is an error, and the book stays as it is.
    pub fn close(&mut self, instance_id: &str, auto_reopen: bool) -> (r: Result<ScopeIndex, WindowRegistryError>)
        requires
            old(self).wf(),
        ensures
            final(self).wf(),
            final(self)@ == after_close(old(self)@, instance_id@, auto_reopen),
            match r {
                Ok(s) => open_scope(old(self)@, instance_id@) == Some(s),
                Err(e) => !is_open_in(old(self)@, instance_id@) && e is NotOpen
                    && e->NotOpen_instance_id@ == instance_id@,
            },
    {
        let key = VarName::from_str_slice(instance_id);
        match self.windows.remove(&key) {
            Some(entry) => match entry.status {
                WindowStatus::Open { scope_index } => {
                    if auto_reopen {
                        self.windows.insert(key, WindowEntry { args: entry.args, status: WindowStatus::Failed });
                        proof {
                            assert(self.windows@ =~= after_close(old(self)@, instance_id@, auto_reopen));
                        }
                    } else {
                        proof {
                            assert(self.windows@ =~= after_close(old(self)@, instance_id@, auto_reopen));
                        }
                    }
                    Ok(scope_index)
                },
                other => {
                    self.windows.insert(key, WindowEntry { args: entry.args, status: other });
                    proof {
                        assert(self.windows@ =~= old(self)@);
                    }
                    Err(WindowRegistryError::NotOpen { instance_id: instance_id.to_owned() })
                },
            },
            None => {
                proof {
                    assert(self.windows@ =~= old(self)@);
                }
                Err(WindowRegistryError::NotOpen { instance_id: instance_id.to_owned() })
            },
        }
    }

    /// The ids of the open windows and, with `failed_too`, of those that
    /// failed to open, each once.
    fn collect_ids(&self, failed_too: bool) -> (r: Vec<String>)
        requires
            self.wf(),
        ensures
            forall|a: int, b: int| 0 <= a < b < r@.len() ==> #[trigger] r@[a]@ != #[trigger] r@[b]@,
            forall|k: Seq<char>|
                (exists|j: int| 0 <= j < r@.len() && #[trigger] r@[j]@ == k) <==> (is_open_in(self@, k)
                    || (failed_too && is_failed_in(self@, k))),
    {
        proof {
            lemma_names_are_keys(&self.windows);
        }
        let ghost ids = self.ids();
        let ghost m = self@;
        let mut r: Vec<String> = Vec::new();
        let mut i: usize = 0;
        while i < self.windows.len()
            invariant
                self.wf(),
                ids == self.ids(),
                m == self@,
                ids.no_duplicates(),
                forall|k: Seq<char>| #[trigger] m.contains_key(k) <==> ids.contains(k),
                i <= ids.len(),
                forall|a: int, b: int| 0 <= a < b < r@.len() ==> #[trigger] r@[a]@ != #[trigger] r@[b]@,
                forall|j: int| 0 <= j < r@.len() ==> exists|p: int| 0 <= p < i && #[trigger] ids[p] == (#[trigger] r@[j])@,
                forall|j: int| 0 <= j < r@.len() ==> is_open_in(m, (#[trigger] r@[j])@)
                    || (failed_too && is_failed_in(m, r@[j]@)),
                forall|p: int| 0 <= p < i && (is_open_in(m, #[trigger] ids[p]) || (failed_too && is_failed_in(m, ids[p])))
                    ==> exists|j: int| 0 <= j < r@.len() && #[trigger] r@[j]@ == ids[p],
            decreases ids.len() - i,
        {
            let name = self.windows.name_at(i);
            let entry = self.windows.value_at(i);
            let wanted = match entry.status {
                WindowStatus::Open { .. } => true,
                WindowStatus::Failed => failed_too,
                WindowStatus::Closed => false,
            };
            if wanted {
                let ghost before = r@;
                r.push(name.0.clone());
                proof {
                    assert(r@[before.len() as int]@ == ids[i as int]);
                    assert forall|a: int, b: int| 0 <= a < b < r@.len() implies #[trigger] r@[a]@ != #[trigger] r@[b]@ by {
                        if b == before.len() {
                            assert(r@[a] == before[a]);
                            let p = choose|p: int| 0 <= p < i && #[trigger] ids[p] == (#[trigger] before[a])@;
                            assert(ids[p] != ids[i as int]);
                        } else {
                            assert(r@[a] == before[a] && r@[b] == before[b]);
                        }
                    }
                    assert forall|j: int| 0 <= j < r@.len() implies exists|p: int| 0 <= p < i + 1 && #[trigger] ids[p] == (#[trigger] r@[j])@ by {
                        if j == before.len() {
                            assert(ids[i as int] == r@[j]@);
                        } else {
                            assert(r@[j] == before[j]);
                            let p = choose|p: int| 0 <= p < i && #[trigger] ids[p] == (#[trigger] before[j])@;
                            assert(ids[p] == r@[j]@);
                        }
                    }
                    assert forall|p: int| 0 <= p < i + 1 && (is_open_in(m, #[trigger] ids[p]) || (failed_too && is_failed_in(m, ids[p])))
                        implies exists|j: int| 0 <= j < r@.len() && #[trigger] r@[j]@ == ids[p] by {
                        if p == i {
                            assert(r@[before.len() as int]@ == ids[p]);
                        } else {
                            let j = choose|j: int| 0 <= j < before.len() && #[trigger] before[j]@ == ids[p];
                            assert(r@[j] == before[j]);
                        }
                    }
                }
            } else {
                proof {
                    assert forall|j: int| 0 <= j < r@.len() implies exists|p: int| 0 <= p < i + 1 && #[trigger] ids[p] == (#[trigger] r@[j])@ by {
                        let p = choose|p: int| 0 <= p < i && #[trigger] ids[p] == (#[trigger] r@[j])@;
                    }
                }
            }
            i = i + 1;
        }
        proof {
            assert forall|k: Seq<char>|
                (exists|j: int| 0 <= j < r@.len() && #[trigger] r@[j]@ == k) <==> (is_open_in(m, k)
                    || (failed_too && is_failed_in(m, k))) by {
                if is_open_in(m, k) || (failed_too && is_failed_in(m, k)) {
                    assert(ids.contains(k));
                    let p = choose|p: int| 0 <= p < ids.len() && ids[p] == k;
                    assert(is_open_in(m, ids[p]) || (failed_too && is_failed_in(m, ids[p])));
                }
            }
        }
        r
    }

    /// The ids of the open windows, each once.
    pub fn open_ids(&self) -> (r: Vec<String>)
        requires
            self.wf(),
        ensures
            forall|a: int, b: int| 0 <= a < b < r@.len() ==> #[trigger] r@[a]@ != #[trigger] r@[b]@,
            forall|k: Seq<char>| (exists|j: int| 0 <= j < r@.len() && #[trigger] r@[j]@ == k) <==> is_open_in(self@, k),
    {
        self.collect_ids(false)
    }

    /// The ids of the windows that a reload of the configuration opens
    /// again: those that are open and those that failed to open, each once.
    /// The arguments of each are kept.
    pub fn reopen_ids(&self) -> (r: Vec<String>)
        requires
            self.wf(),
        ensures
            forall|a: int, b: int| 0 <= a < b < r@.len() ==> #[trigger] r@[a]@ != #[trigger] r@[b]@,
            forall|k: Seq<char>|
                (exists|j: int| 0 <= j < r@.len() && #[trigger] r@[j]@ == k) <==> (is_open_in(self@, k)
                    || is_failed_in(self@, k)),
            forall|j: int| 0 <= j < r@.len() ==> self@.contains_key((#[trigger] r@[j])@),
    {
        let r = self.collect_ids(true);
        proof {
            assert forall|j: int| 0 <= j < r@.len() implies self@.contains_key((#[trigger] r@[j])@) by {
                let k = r@[j]@;
                assert(0 <= j < r@.len() && r@[j]@ == k);
                assert(is_open_in(self@, k) || is_failed_in(self@, k));
            }
        }
        r
    }

    /// Each open window as its id and the name of its definition, each id
    /// once.
    pub fn active_windows(&self) -> (r: Vec<(String, String)>)
        requires
            self.wf(),
        ensures
            forall|a: int, b: int| 0 <= a < b < r@.len() ==> #[trigger] r@[a].0@ != #[trigger] r@[b].0@,
            forall|j: int| 0 <= j < r@.len() ==> is_open_in(self@, (#[trigger] r@[j]).0@)
                && r@[j].1@ == self@[r@[j].0@].args.window_name@,
            forall|k: Seq<char>| is_open_in(self@, k) ==> exists|j: int| 0 <= j < r@.len() && #[trigger] r@[j].0@ == k,
    {
        let ids = self.open_ids();
        let mut r: Vec<(String, String)> = Vec::new();
        let mut i: usize = 0;
        while i < ids.len()
            invariant
                self.wf(),
                i <= ids@.len(),
                r@.len() == i,
                forall|a: int, b: int| 0 <= a < b < ids@.len() ==> #[trigger] ids@[a]@ != #[trigger] ids@[b]@,
                forall|k: Seq<char>| (exists|j: int| 0 <= j < ids@.len() && #[trigger] ids@[j]@ == k) <==> is_open_in(self@, k),
                forall|j: int| 0 <= j < i ==> (#[trigger] r@[j]).0@ == ids@[j]@
                    && r@[j].1@ == self@[ids@[j]@].args.window_name@,
            decreases ids@.len() - i,
        {
            let id = &ids[i];
            proof {
                assert(0 <= i < ids@.len() && ids@[i as int]@ == id@);
            }
            match self.arguments(id.as_str()) {
                Some(args) => {
                    r.push((id.clone(), args.window_name.clone()));
                },
                None => {
                    proof {
                        assert(is_open_in(self@, id@));
                    }
                },
            }
            i = i + 1;
        }
        proof {
            assert forall|j: int| 0 <= j < r@.len() implies is_open_in(self@, (#[trigger] r@[j]).0@)
                && r@[j].1@ == self@[r@[j].0@].args.window_name@ by {
                let k = ids@[j]@;
                assert(0 <= j < ids@.len() && ids@[j]@ == k);
            }
            assert forall|k: Seq<char>| is_open_in(self@, k) implies exists|j: int| 0 <= j < r@.len() && #[trigger] r@[j].0@ == k by {
                let j = choose|j: int| 0 <= j < ids@.len() && #[trigger] ids@[j]@ == k;
                assert(r@[j].0@ == k);
            }
            assert forall|a: int, b: int| 0 <= a < b < r@.len() implies #[trigger] r@[a].0@ != #[trigger] r@[b].0@ by {
                assert(ids@[a]@ != ids@[b]@);
            }
        }
        r
    }

    /// Closes every open window in the book on shutdown and returns their
    /// ids, for the caller to close the windows themselves. The kept
    /// arguments and the failed windows stay.
    pub fn stop(&mut self) -> (r: Vec<String>)
        requires
            old(self).wf(),
        ensures
            final(self).wf(),
            final(self)@ == after_stop(old(self)@),
            forall|a: int, b: int| 0 <= a < b < r@.len() ==> #[trigger] r@[a]@ != #[trigger] r@[b]@,
            forall|k: Seq<char>| (exists|j: int| 0 <= j < r@.len() && #[trigger] r@[j]@ == k) <==> is_open_in(old(self)@, k),
    {
        let ids = self.open_ids();
        let ghost m = self@;
        let mut i: usize = 0;
        while i < ids.len()
            invariant
                self.wf(),
                i <= ids@.len(),
                forall|a: int, b: int| 0 <= a < b < ids@.len() ==> #[trigger] ids@[a]@ != #[trigger] ids@[b]@,
                forall|k: Seq<char>| (exists|j: int| 0 <= j < ids@.len() && #[trigger] ids@[j]@ == k) <==> is_open_in(m, k),
                self@.dom() == m.dom(),
                forall|k: Seq<char>| #[trigger] self@.contains_key(k) ==> self@[k] == (
                    if is_open_in(m, k) && exists|j: int| 0 <= j < i && #[trigger] ids@[j]@ == k {
                        WindowEntry { args: m[k].args, status: WindowStatus::Closed }
                    } else {
                        m[k]
                    }),
            decreases ids@.len() - i,
        {
            let id = &ids[i];
            let ghost k = id@;
            proof {
                assert(0 <= i < ids@.len() && ids@[i as int]@ == k);
                assert(is_open_in(m, k));
                assert forall|j: int| 0 <= j < i implies #[trigger] ids@[j]@ != k by {
                    assert(ids@[j]@ != ids@[i as int]@);
                }
                assert(self@[k] == m[k]);
            }
            let ghost before = self@;
            let key = VarName::from_str_slice(id.as_str());
            match self.windows.remove(&key) {
                Some(entry) => {
                    self.windows.insert(key, WindowEntry { args: entry.args, status: WindowStatus::Closed });
                },
                None => {},
            }
            proof {
                assert(self@ == before.insert(k, WindowEntry { args: m[k].args, status: WindowStatus::Closed }));
                assert(self@.dom() =~= m.dom());
                assert forall|k2: Seq<char>| #[trigger] self@.contains_key(k2) implies self@[k2] == (
                    if is_open_in(m, k2) && exists|j: int| 0 <= j < i + 1 && #[trigger] ids@[j]@ == k2 {
                        WindowEntry { args: m[k2].args, status: WindowStatus::Closed }
                    } else {
                        m[k2]
                    }) by {
                    if k2 == k {
                        assert(ids@[i as int]@ == k2);
                    } else {
                        if exists|j: int| 0 <= j < i + 1 && #[trigger] ids@[j]@ == k2 {
                            let j = choose|j: int| 0 <= j < i + 1 && #[trigger] ids@[j]@ == k2;
                            assert(j != i);
                        }
                    }
                }
            }
            i = i + 1;
        }
        proof {
            assert forall|k: Seq<char>| #[trigger] self@.contains_key(k) implies self@[k] == after_stop(m)[k] by {
                if is_open_in(m, k) {
                    let j = choose|j: int| 0 <= j < ids@.len() && #[trigger] ids@[j]@ == k;
                    assert(exists|j2: int| 0 <= j2 < i && #[trigger] ids@[j2]@ == k);
                }
            }
            assert(self@ =~= after_stop(m));
        }
        ids
    }

    /// Gets the window `instance_id` ready to be opened again with the
    /// arguments it was last opened with. When it is open, it is closed
    /// first: its scope is returned, for the caller to tear it down. When no
    /// arguments are kept for it, that is an error, and the book stays as it
    /// is.
    pub fn begin_reopen(&mut self, instance_id: &str) -> (r: Result<Option<ScopeIndex>, WindowRegistryError>)
        requires
            old(self).wf(),
        ensures
            final(self).wf(),
            final(self)@ == after_begin_reopen(old(self)@, instance_id@),
            match r {
                Ok(s) => old(self)@.contains_key(instance_id@) && s == open_scope(old(self)@, instance_id@),
                Err(e) => !old(self)@.contains_key(instance_id@) && e is MissingArguments
                    && e->MissingArguments_instance_id@ == instance_id@,
            },
    {
        let key = VarName::from_str_slice(instance_id);
        match self.windows.remove(&key) {
            Some(entry) => {
                let previous = match entry.status {
                    WindowStatus::Open { scope_index } => Some(scope_index),
                    _ => None,
                };
                self.windows.insert(key, WindowEntry { args: entry.args, status: WindowStatus::Closed });
                proof {
                    assert(self.windows@ =~= after_begin_reopen(old(self)@, instance_id@));
                }
                Ok(previous)
            },
            None => {
                proof {
                    assert(self.windows@ =~= old(self)@);
                }
                Err(WindowRegistryError::MissingArguments { instance_id: instance_id.to_owned() })
            },
        }
    }
}

/// Opening a window and then closing it without `auto_reopen` forgets it:
/// the book is as it was, less any earlier entry of the same id.
pub proof fn law_open_then_close_forgets(m: Map<Seq<char>, WindowEntry>, args: WindowArguments, scope: ScopeIndex)
    ensures
        after_close(
            after_finish_open(after_begin_open(m, args), args.instance_id@, Some(scope)),
            args.instance_id@,
            false,
        ) == m.remove(args.instance_id@),
{
    let id = args.instance_id@;
    let m3 = after_close(after_finish_open(after_begin_open(m, args), id, Some(scope)), id, false);
    assert(m3 =~= m.remove(id));
}

/// A window that is closed with `auto_reopen` is opened again with the very
/// arguments it was open with, and the rest of the book is untouched.
pub proof fn law_auto_reopen_keeps_arguments(m: Map<Seq<char>, WindowEntry>, id: Seq<char>)
    requires
        is_open_in(m, id),
    ensures
        is_failed_in(after_close(m, id, true), id),
        after_begin_reopen(after_close(m, id, true), id).contains_key(id),
        after_begin_reopen(after_close(m, id, true), id)[id].args == m[id].args,
        after_begin_reopen(after_close(m, id, true), id).remove(id) == m.remove(id),
{
    let m2 = after_begin_reopen(after_close(m, id, true), id);
    assert(m2.remove(id) =~= m.remove(id));
}

/// A window that could not be opened keeps its arguments and is marked
/// failed, so that a reload opens it again; one that could be opened is open
/// in the scope it was given.
pub proof fn law_finish_open_outcome(m: Map<Seq<char>, WindowEntry>, args: WindowArguments, scope: Option<ScopeIndex>)
    ensures
        ({
            let id = args.instance_id@;
            let m2 = after_finish_open(after_begin_open(m, args), id, scope);
            &&& m2.contains_key(id)
            &&& m2[id].args == args
            &&& match scope {
                Some(s) => is_open_in(m2, id) && open_scope(m2, id) == Some(s),
                None => is_failed_in(m2, id),
            }
        }),
{
}

} // verus!
