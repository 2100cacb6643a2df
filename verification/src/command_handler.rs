//! How the daemon handles a command with respect to its windows: which
//! windows it closes, which it opens, and what it answers. The daemon then
//! does the work with GTK, the configuration and the scope graph that the
//! outcome asks for.

use vstd::prelude::*;
use crate::commands::{
    DaemonCommand, active_windows_output, args_for_window, get_var_response, state_line, state_lines, state_output,
    text_values, window_args_spec,
};
use crate::coords::{Coords, coords_spec};
use crate::daemon_response::{DaemonResponse, DaemonResponseSender, response_for_errors, response_for_result};
use crate::monitor::MonitorIdentifier;
use crate::names::{NameMap, VarName, entries_map};
use crate::state::scope_graph::{ScopeGraph, ScopeIndex};
use crate::text::{join, push_str, string_of};
use crate::window_arguments::{WindowArgsError, WindowArguments, monitor_from};
use crate::window_registry::{
    WindowEntry, WindowRegistry, WindowStatus, after_close, after_finish_open, is_open_in,
    open_scope,
};

verus! {

/// The message for a window that was to be closed but is not open.
pub open spec fn not_open_message(id: Seq<char>) -> Seq<char> {
    "Tried to close window with id '"@ + id + "', but no such window was open"@
}

/// The message for a window that could not be opened.
pub open spec fn open_failed_message(id: Seq<char>) -> Seq<char> {
    "failed to open window `"@ + id + "`"@
}

/// The book after the windows `ids` are closed one after the other.
pub open spec fn close_each(m: Map<Seq<char>, WindowEntry>, ids: Seq<Seq<char>>, auto_reopen: bool) -> Map<
    Seq<char>,
    WindowEntry,
>
    decreases ids.len(),
{
    if ids.len() == 0 {
        m
    } else {
        after_close(close_each(m, ids.drop_last(), auto_reopen), ids.last(), auto_reopen)
    }
}

/// The windows among `ids` that were open when their turn came, with their
/// scopes, in order.
pub open spec fn closed_by_each(m: Map<Seq<char>, WindowEntry>, ids: Seq<Seq<char>>, auto_reopen: bool) -> Seq<
    (Seq<char>, ScopeIndex),
>
    decreases ids.len(),
{
    if ids.len() == 0 {
        Seq::empty()
    } else {
        let before = close_each(m, ids.drop_last(), auto_reopen);
        let earlier = closed_by_each(m, ids.drop_last(), auto_reopen);
        match open_scope(before, ids.last()) {
            Some(s) => earlier.push((ids.last(), s)),
            None => earlier,
        }
    }
}

/// The messages for the windows among `ids` that were not open when their
/// turn came, in order.
pub open spec fn close_failures(m: Map<Seq<char>, WindowEntry>, ids: Seq<Seq<char>>, auto_reopen: bool) -> Seq<
    Seq<char>,
>
    decreases ids.len(),
{
    if ids.len() == 0 {
        Seq::empty()
    } else {
        let before = close_each(m, ids.drop_last(), auto_reopen);
        let earlier = close_failures(m, ids.drop_last(), auto_reopen);
        if is_open_in(before, ids.last()) {
            earlier
        } else {
            earlier.push(not_open_message(ids.last()))
        }
    }
}

/// What the daemon does after handling a command.
#[derive(Debug)]
pub enum CommandOutcome {
    /// The windows of `closed` (id and scope) are closed in the book: the
    /// daemon tears them down and removes their scopes, opens the windows of
    /// `reopen` again with their kept arguments, and sends `response` on
    /// `sender` when there is one.
    Closed {
        closed: Vec<(String, ScopeIndex)>,
        reopen: Vec<String>,
        reply: Option<(DaemonResponseSender, DaemonResponse)>,
    },
    /// The window `instance_id` is to be opened with the arguments that the
    /// book now keeps for it; an instance that was open under that id
    /// (`previous`) is torn down first. The daemon builds the window, records
    /// the result with [`finish_open_window`] and answers on `sender`.
    Open {
        instance_id: String,
        previous: Option<ScopeIndex>,
        anchor: Option<String>,
        duration: Option<String>,
        sender: DaemonResponseSender,
    },
    /// The daemon stops: it closes the windows of `ids`, which the book has
    /// closed, and quits.
    Stop { ids: Vec<String> },
    /// The daemon carries the command out itself: a command to open several
    /// windows window by window with [`open_many_step`], the others with its
    /// configuration, scope graph and GTK.
    Forward(DaemonCommand),
}

/// The message for a window that was to be closed but is not open.
fn not_open_text(id: &str) -> (r: String)
    ensures
        r@ == not_open_message(id@),
{
    let mut v: Vec<char> = Vec::new();
    push_str(&mut v, "Tried to close window with id '");
    push_str(&mut v, id);
    push_str(&mut v, "', but no such window was open");
    string_of(&v)
}

/// Closes the windows `ids` in the book, one after the other; with
/// `auto_reopen` they are kept to be opened again. Gives the windows that
/// were closed, with their scopes, the ids to open again, and a message for
/// each window that was not open.
pub fn close_windows(reg: &mut WindowRegistry, ids: &Vec<String>, auto_reopen: bool) -> (r: (
    Vec<(String, ScopeIndex)>,
    Vec<String>,
    Vec<String>,
))
    requires
        old(reg).wf(),
    ensures
        final(reg).wf(),
        ({
            let v = ids@.map_values(|s: String| s@);
            &&& final(reg)@ == close_each(old(reg)@, v, auto_reopen)
            &&& r.0@.map_values(|c: (String, ScopeIndex)| (c.0@, c.1)) == closed_by_each(old(reg)@, v, auto_reopen)
            &&& r.1@.map_values(|s: String| s@) == if auto_reopen {
                closed_by_each(old(reg)@, v, auto_reopen).map_values(|c: (Seq<char>, ScopeIndex)| c.0)
            } else {
                Seq::empty()
            }
            &&& r.2@.map_values(|s: String| s@) == close_failures(old(reg)@, v, auto_reopen)
        }),
{
    let ghost m = reg@;
    let ghost v = ids@.map_values(|s: String| s@);
    let mut closed: Vec<(String, ScopeIndex)> = Vec::new();
    let mut reopen: Vec<String> = Vec::new();
    let mut errors: Vec<String> = Vec::new();
    let mut i: usize = 0;
    while i < ids.len()
        invariant
            reg.wf(),
            0 <= i <= ids@.len(),
            v == ids@.map_values(|s: String| s@),
            reg@ == close_each(m, v.take(i as int), auto_reopen),
            closed@.map_values(|c: (String, ScopeIndex)| (c.0@, c.1)) == closed_by_each(m, v.take(i as int), auto_reopen),
            reopen@.map_values(|s: String| s@) == if auto_reopen {
                closed_by_each(m, v.take(i as int), auto_reopen).map_values(|c: (Seq<char>, ScopeIndex)| c.0)
            } else {
                Seq::empty()
            },
            errors@.map_values(|s: String| s@) == close_failures(m, v.take(i as int), auto_reopen),
        decreases ids.len() - i,
    {
        let id = &ids[i];
        let ghost t = v.take(i as int + 1);
        proof {
            assert(t.drop_last() =~= v.take(i as int));
            assert(t.last() == id@);
        }
        let ghost before_closed = closed@.map_values(|c: (String, ScopeIndex)| (c.0@, c.1));
        let ghost before_reopen = reopen@.map_values(|s: String| s@);
        let ghost before_errors = errors@.map_values(|s: String| s@);
        match reg.close(id.as_str(), auto_reopen) {
            Ok(scope) => {
                closed.push((id.clone(), scope));
                if auto_reopen {
                    reopen.push(id.clone());
                }
                proof {
                    assert(closed@.map_values(|c: (String, ScopeIndex)| (c.0@, c.1)) =~= before_closed.push((id@, scope)));
                    if auto_reopen {
                        assert(reopen@.map_values(|s: String| s@) =~= before_reopen.push(id@));
                        assert(closed_by_each(m, t, auto_reopen).map_values(|c: (Seq<char>, ScopeIndex)| c.0)
                            =~= closed_by_each(m, v.take(i as int), auto_reopen).map_values(
                            |c: (Seq<char>, ScopeIndex)| c.0,
                        ).push(id@));
                    }
                }
            },
            Err(_) => {
                let msg = not_open_text(id.as_str());
                errors.push(msg);
                proof {
                    assert(errors@.map_values(|s: String| s@) =~= before_errors.push(not_open_message(id@)));
                }
            },
        }
        i = i + 1;
    }
    proof {
        assert(v.take(ids@.len() as int) =~= v);
    }
    (closed, reopen, errors)
}

/// Whether every id of `ids` names an open window of `m`, each once.
pub open spec fn distinct_open_ids(m: Map<Seq<char>, WindowEntry>, ids: Seq<Seq<char>>) -> bool {
    &&& forall|a: int, b: int| 0 <= a < b < ids.len() ==> #[trigger] ids[a] != #[trigger] ids[b]
    &&& forall|j: int| 0 <= j < ids.len() ==> is_open_in(m, #[trigger] ids[j])
}

proof fn lemma_close_distinct_open(m: Map<Seq<char>, WindowEntry>, ids: Seq<Seq<char>>)
    requires
        distinct_open_ids(m, ids),
    ensures
        close_failures(m, ids, false) == Seq::<Seq<char>>::empty(),
        closed_by_each(m, ids, false).len() == ids.len(),
        forall|j: int| 0 <= j < ids.len() ==> #[trigger] closed_by_each(m, ids, false)[j] == (
        ids[j],
        open_scope(m, ids[j])->0,
        ),
        forall|k: Seq<char>| #[trigger] close_each(m, ids, false).contains_key(k) == (m.contains_key(k) && !ids.contains(
            k,
        )),
        forall|k: Seq<char>| #[trigger] close_each(m, ids, false).contains_key(k) ==> close_each(m, ids, false)[k]
            == m[k],
    decreases ids.len(),
{
    if ids.len() > 0 {
        let init = ids.drop_last();
        let last = ids.last();
        assert(distinct_open_ids(m, init)) by {
            assert forall|a: int, b: int| 0 <= a < b < init.len() implies #[trigger] init[a] != #[trigger] init[b] by {
                assert(init[a] == ids[a] && init[b] == ids[b]);
            }
            assert forall|j: int| 0 <= j < init.len() implies is_open_in(m, #[trigger] init[j]) by {
                assert(init[j] == ids[j]);
            }
        }
        lemma_close_distinct_open(m, init);
        let before = close_each(m, init, false);
        assert(!init.contains(last)) by {
            if init.contains(last) {
                let a = choose|a: int| 0 <= a < init.len() && init[a] == last;
                assert(ids[a] == ids[ids.len() - 1]);
            }
        }
        assert(is_open_in(m, ids[ids.len() - 1]));
        assert(m.contains_key(last));
        assert(close_each(m, init, false).contains_key(last) == (m.contains_key(last) && !init.contains(last)));
        assert(before.contains_key(last));
        assert(before[last] == m[last]);
        assert(is_open_in(before, last));
        assert forall|k: Seq<char>| #[trigger] close_each(m, ids, false).contains_key(k) == (m.contains_key(k)
            && !ids.contains(k)) by {
            if init.contains(k) {
                let a = choose|a: int| 0 <= a < init.len() && init[a] == k;
                assert(ids[a] == k);
            }
            if ids.contains(k) && k != last {
                let a = choose|a: int| 0 <= a < ids.len() && ids[a] == k;
                assert(a < ids.len() - 1);
                assert(init[a] == k);
            }
            if k == last {
                assert(ids[ids.len() - 1] == k);
            }
        }
        assert forall|j: int| 0 <= j < ids.len() implies #[trigger] closed_by_each(m, ids, false)[j] == (
        ids[j],
        open_scope(m, ids[j])->0,
        ) by {
            if j < ids.len() - 1 {
                assert(closed_by_each(m, init, false)[j] == (init[j], open_scope(m, init[j])->0));
                assert(init[j] == ids[j]);
            }
        }
    }
}

/// Closes every open window in the book, and gives each with its scope.
pub fn close_all(reg: &mut WindowRegistry) -> (r: Vec<(String, ScopeIndex)>)
    requires
        old(reg).wf(),
    ensures
        final(reg).wf(),
        forall|k: Seq<char>| #[trigger] final(reg)@.contains_key(k) == (old(reg)@.contains_key(k) && !is_open_in(
            old(reg)@,
            k,
        )),
        forall|k: Seq<char>| #[trigger] final(reg)@.contains_key(k) ==> final(reg)@[k] == old(reg)@[k],
        forall|a: int, b: int| 0 <= a < b < r@.len() ==> #[trigger] r@[a].0@ != #[trigger] r@[b].0@,
        forall|j: int| 0 <= j < r@.len() ==> open_scope(old(reg)@, (#[trigger] r@[j]).0@) == Some(r@[j].1),
        forall|k: Seq<char>| is_open_in(old(reg)@, k) ==> exists|j: int| 0 <= j < r@.len() && #[trigger] r@[j].0@ == k,
{
    let ghost m = reg@;
    let ids = reg.open_ids();
    let ghost v = ids@.map_values(|s: String| s@);
    proof {
        assert forall|j: int| 0 <= j < v.len() implies is_open_in(m, #[trigger] v[j]) by {
            let k = ids@[j]@;
            assert(0 <= j < ids@.len() && ids@[j]@ == k);
        }
        assert forall|a: int, b: int| 0 <= a < b < v.len() implies #[trigger] v[a] != #[trigger] v[b] by {
            assert(ids@[a]@ != ids@[b]@);
        }
        lemma_close_distinct_open(m, v);
    }
    let (closed, _, _) = close_windows(reg, &ids, false);
    proof {
        let c = closed_by_each(m, v, false);
        assert forall|j: int| 0 <= j < closed@.len() implies #[trigger] closed@[j].0@ == v[j] && closed@[j].1
            == open_scope(m, v[j])->0 by {
            assert(closed@.map_values(|x: (String, ScopeIndex)| (x.0@, x.1))[j] == c[j]);
        }
        assert forall|k: Seq<char>| #[trigger] reg@.contains_key(k) == (m.contains_key(k) && !is_open_in(m, k)) by {
            if is_open_in(m, k) {
                let j = choose|j: int| 0 <= j < ids@.len() && #[trigger] ids@[j]@ == k;
                assert(v[j] == k);
            }
            if v.contains(k) {
                let j = choose|j: int| 0 <= j < v.len() && v[j] == k;
                assert(is_open_in(m, v[j]));
            }
        }
        assert forall|k: Seq<char>| is_open_in(m, k) implies exists|j: int| 0 <= j < closed@.len() && #[trigger] closed@[j].0@
            == k by {
            let j = choose|j: int| 0 <= j < ids@.len() && #[trigger] ids@[j]@ == k;
            assert(closed@[j].0@ == v[j]);
        }
        assert forall|a: int, b: int| 0 <= a < b < closed@.len() implies #[trigger] closed@[a].0@ != #[trigger] closed@[b].0@ by {
            assert(closed@[a].0@ == v[a] && closed@[b].0@ == v[b]);
        }
    }
    closed
}

/// The variables given for a window, as a map: a later one of the same
/// name wins.
fn args_map(args: Option<Vec<(VarName, String)>>) -> (r: NameMap<String>)
    ensures
        r.wf(),
        r@ == match args {
            Some(v) => entries_map(v@),
            None => Map::<Seq<char>, String>::empty(),
        },
{
    let mut m: NameMap<String> = NameMap::new();
    match args {
        Some(v) => {
            let ghost s = v@;
            let mut i: usize = 0;
            while i < v.len()
                invariant
                    m.wf(),
                    s == v@,
                    0 <= i <= s.len(),
                    m@ == entries_map(s.take(i as int)),
                decreases v.len() - i,
            {
                let (n, val) = &v[i];
                m.insert(n.copy(), val.clone());
                proof {
                    assert(s.take(i as int + 1).drop_last() =~= s.take(i as int));
                }
                i = i + 1;
            }
            proof {
                assert(s.take(s.len() as int) =~= s);
            }
        },
        None => {},
    }
    m
}

/// Why a window could not be opened.
#[derive(Debug)]
pub struct OpenWindowError {
    /// The id of the window.
    pub instance_id: String,
    /// What went wrong, as the daemon formatted it.
    pub cause: String,
}

impl OpenWindowError {
    /// The message of the error: ``failed to open window `id` ``.
    pub fn message(&self) -> (r: String)
        ensures
            r@ == open_failed_message(self.instance_id@),
    {
        let mut v: Vec<char> = Vec::new();
        push_str(&mut v, "failed to open window `");
        push_str(&mut v, self.instance_id.as_str());
        push_str(&mut v, "`");
        string_of(&v)
    }
}

/// Records how building the window `instance_id` ended: open in the scope it
/// was given, or failed for the reason `outcome` gives. A failure keeps the
/// window in the book as failed, to be opened again on a reload, and is
/// reported as ``failed to open window `id` `` with that reason.
pub fn finish_open_window(reg: &mut WindowRegistry, instance_id: &str, outcome: Result<ScopeIndex, String>) -> (r:
    Result<(), OpenWindowError>)
    requires
        old(reg).wf(),
    ensures
        final(reg).wf(),
        final(reg)@ == after_finish_open(
            old(reg)@,
            instance_id@,
            match outcome {
                Ok(s) => Some(s),
                Err(_) => None,
            },
        ),
        match outcome {
            Ok(_) => r is Ok,
            Err(c) => r matches Err(e) && e.instance_id@ == instance_id@ && e.cause == c,
        },
{
    match outcome {
        Ok(scope) => {
            reg.finish_open(instance_id, Some(scope));
            Ok(())
        },
        Err(cause) => {
            reg.finish_open(instance_id, None);
            Err(OpenWindowError { instance_id: instance_id.to_owned(), cause })
        },
    }
}

/// What a command to open the window `window_name` as `instance_id` leaves
/// in the book and gives as outcome: see [`handle_command`].
pub open spec fn open_window_handled(
    old_m: Map<Seq<char>, WindowEntry>,
    new_m: Map<Seq<char>, WindowEntry>,
    r: CommandOutcome,
    window_name: String,
    instance_id: Option<String>,
    pos: Option<Coords>,
    size: Option<Coords>,
    anchor: Option<String>,
    screen: Option<MonitorIdentifier>,
    should_toggle: bool,
    duration: Option<String>,
    sender: DaemonResponseSender,
    args: Option<Vec<(VarName, String)>>,
) -> bool {
                let id = match instance_id {
                    Some(i) => i@,
                    None => window_name@,
                };
                if should_toggle && is_open_in(old_m, id) {
                    &&& new_m == after_close(old_m, id, false)
                    &&& r matches CommandOutcome::Closed { closed, reopen, reply }
                    &&& closed@.len() == 1 && closed@[0].0@ == id && open_scope(old_m, id) == Some(closed@[0].1)
                    &&& reopen@.len() == 0
                    &&& reply matches Some((s, DaemonResponse::Success(m))) && s == sender && m@.len() == 0
                } else {
                    &&& new_m.contains_key(id)
                    &&& new_m.remove(id) == old_m.remove(id)
                    &&& new_m[id].status is Closed
                    &&& new_m[id].args.instance_id@ == id
                    &&& new_m[id].args.window_name == window_name
                    &&& new_m[id].args.pos == pos
                    &&& new_m[id].args.size == size
                    &&& new_m[id].args.monitor == screen
                    &&& new_m[id].args.args.wf()
                    &&& new_m[id].args.args@ == match args {
                        Some(v) => entries_map(v@),
                        None => Map::<Seq<char>, String>::empty(),
                    }
                    &&& r matches CommandOutcome::Open { instance_id: i, previous, anchor: a, duration: d, sender: s }
                    &&& i@ == id && previous == open_scope(old_m, id) && a == anchor && d == duration && s == sender
                }
            }

/// Handles a command to open a window: see [`handle_command`].
fn open_window_command(
    reg: &mut WindowRegistry,
    window_name: String,
    instance_id: Option<String>,
    pos: Option<Coords>,
    size: Option<Coords>,
    anchor: Option<String>,
    screen: Option<MonitorIdentifier>,
    should_toggle: bool,
    duration: Option<String>,
    sender: DaemonResponseSender,
    args: Option<Vec<(VarName, String)>>,
) -> (r: CommandOutcome)
    requires
        old(reg).wf(),
    ensures
        final(reg).wf(),
        open_window_handled(old(reg)@, final(reg)@, r, window_name, instance_id, pos, size, anchor, screen, should_toggle, duration, sender, args),
{

            let id = match instance_id {
                Some(i) => i,
                None => window_name.clone(),
            };
            if should_toggle && reg.is_open(id.as_str()) {
                let ghost m = reg@;
                match reg.close(id.as_str(), false) {
                    Ok(scope) => {
                        let response = response_for_result::<()>(Ok(()));
                        let mut closed: Vec<(String, ScopeIndex)> = Vec::new();
                        closed.push((id, scope));
                        CommandOutcome::Closed { closed, reopen: Vec::new(), reply: Some((sender, response)) }
                    },
                    Err(_) => {
                        proof {
                            assert(false);
                        }
                        CommandOutcome::Closed { closed: Vec::new(), reopen: Vec::new(), reply: None }
                    },
                }
            } else {
                let wargs = WindowArguments {
                    window_name,
                    instance_id: id.clone(),
                    args: args_map(args),
                    monitor: screen,
                    pos,
                    size,
                };
                let ghost m = reg@;
                let ghost w = wargs;
                let previous = reg.begin_open(wargs);
                proof {
                    assert(reg@.remove(id@) =~= m.remove(id@));
                    assert(reg@[id@] == (WindowEntry { args: w, status: WindowStatus::Closed }));
                }
                let ghost a0 = anchor;
                let ghost d0 = duration;
                let ghost s0 = sender;
                let out = CommandOutcome::Open { instance_id: id, previous, anchor, duration, sender };
                proof {
                    assert(out matches CommandOutcome::Open { instance_id: i, previous: p, anchor: a, duration: d, sender: s }
                        && i@ == id@ && p == open_scope(m, id@) && a == a0 && d == d0 && s == s0);
                }
                out
            }
        }

/// What becomes of one window of a command that opens several windows.
#[derive(Debug)]
pub enum OpenManyStep {
    /// The window was open and is toggled: the book has closed it, and the
    /// daemon tears it down and removes its scope `scope`.
    Closed { instance_id: String, scope: ScopeIndex },
    /// The window is to be opened with the arguments that the book now keeps
    /// for it, as for [`CommandOutcome::Open`]; the daemon builds it and
    /// records the result with [`finish_open_window`] before it takes the
    /// next window.
    Open { instance_id: String, previous: Option<ScopeIndex>, anchor: Option<String>, duration: Option<String> },
    /// The arguments given for the window are not valid: the book is
    /// unchanged and the error goes into the answer.
    Refused(WindowArgsError),
}

/// The text of `t`, if there is one.
pub open spec fn text_of(t: Option<String>) -> Option<Seq<char>> {
    match t {
        Some(s) => Some(s@),
        None => None,
    }
}

/// What one window `(config_name, id)` of a command that opens several
/// windows, with the arguments `args` and `should_toggle`, leaves in the book
/// (`old_m` into `new_m`) and gives as step: see [`open_many_step`].
pub open spec fn open_many_step_done(
    old_m: Map<Seq<char>, WindowEntry>,
    new_m: Map<Seq<char>, WindowEntry>,
    r: OpenManyStep,
    config_name: Seq<char>,
    id: Seq<char>,
    args: Seq<(String, VarName, String)>,
    should_toggle: bool,
) -> bool {
    if should_toggle && is_open_in(old_m, id) {
        &&& new_m == after_close(old_m, id, false)
        &&& r matches OpenManyStep::Closed { instance_id, scope }
        &&& instance_id@ == id && open_scope(old_m, id) == Some(scope)
    } else {
        let given = window_args_spec(args, id);
        let pos_ok = given.get("pos"@) matches Some(t) ==> coords_spec(t) is Some;
        let size_ok = given.get("size"@) matches Some(t) ==> coords_spec(t) is Some;
        if pos_ok && size_ok {
            let w = new_m[id].args;
            &&& new_m.contains_key(id)
            &&& new_m.remove(id) == old_m.remove(id)
            &&& new_m[id].status is Closed
            &&& w.instance_id@ == id
            &&& w.window_name@ == config_name
            &&& w.args.wf()
            &&& text_values(w.args@) == given.remove("pos"@).remove("size"@).remove("screen"@).remove("anchor"@).remove(
                "duration"@,
            )
            &&& w.pos == match given.get("pos"@) {
                Some(t) => coords_spec(t),
                None => None,
            }
            &&& w.size == match given.get("size"@) {
                Some(t) => coords_spec(t),
                None => None,
            }
            &&& match given.get("screen"@) {
                Some(t) => w.monitor matches Some(m) && monitor_from(t, m),
                None => w.monitor is None,
            }
            &&& r matches OpenManyStep::Open { instance_id, previous, anchor, duration }
            &&& instance_id@ == id && previous == open_scope(old_m, id)
            &&& text_of(anchor) == given.get("anchor"@) && text_of(duration) == given.get("duration"@)
        } else {
            &&& new_m == old_m
            &&& r matches OpenManyStep::Refused(WindowArgsError::InvalidCoords { name, .. })
            &&& name@ == if pos_ok { "size"@ } else { "pos"@ }
        }
    }
}

/// Handles one window `(config_name, id)` of a command that opens several
/// windows. With `should_toggle`, an open window is closed; else the window
/// gets the arguments given for it or for every window (a later one of a
/// name replacing an earlier one), from which `pos`, `size`, `screen`,
/// `anchor` and `duration` are taken out, and is to be opened; arguments
/// that are not valid refuse the window. The daemon goes through the windows
/// in order, building each window before it handles the next, and answers
/// with the errors of all of them.
pub fn open_many_step(
    reg: &mut WindowRegistry,
    config_name: &str,
    id: &str,
    args: &Vec<(String, VarName, String)>,
    should_toggle: bool,
) -> (r: OpenManyStep)
    requires
        old(reg).wf(),
    ensures
        final(reg).wf(),
        open_many_step_done(old(reg)@, final(reg)@, r, config_name@, id@, args@, should_toggle),
{
    if should_toggle && reg.is_open(id) {
        match reg.close(id, false) {
            Ok(scope) => OpenManyStep::Closed { instance_id: id.to_owned(), scope },
            Err(_) => {
                proof {
                    assert(false);
                }
                OpenManyStep::Closed { instance_id: id.to_owned(), scope: ScopeIndex(0) }
            },
        }
    } else {
        let given = args_for_window(args, id);
        let ghost g = given@;
        proof {
            reveal_strlit("pos");
            reveal_strlit("size");
            reveal_strlit("screen");
            reveal_strlit("anchor");
            reveal_strlit("duration");
            assert(forall|k: Seq<char>| #[trigger] g.contains_key(k) == text_values(g).contains_key(k));
            assert(forall|k: Seq<char>| g.contains_key(k) ==> #[trigger] text_values(g)[k] == g[k]@);
        }
        match WindowArguments::new_from_args(id.to_owned(), config_name.to_owned(), given) {
            Ok((w, anchor, duration)) => {
                let ghost wv = w;
                let ghost m = reg@;
                proof {
                    assert(text_values(wv.args@) =~= text_values(g).remove("pos"@).remove("size"@).remove("screen"@).remove(
                        "anchor"@,
                    ).remove("duration"@));
                }
                let previous = reg.begin_open(w);
                proof {
                    assert(reg@.remove(id@) =~= m.remove(id@));
                }
                OpenManyStep::Open { instance_id: id.to_owned(), previous, anchor, duration }
            },
            Err(e) => OpenManyStep::Refused(e),
        }
    }
}

/// Whether `text` is the list of the open windows of `m`, as the
/// `active-windows` command answers it: a line `id: name` for each open
/// window, each once, in some order, joined by line feeds.
pub open spec fn active_windows_text(m: Map<Seq<char>, WindowEntry>, text: Seq<char>) -> bool {
    exists|ws: Seq<(Seq<char>, Seq<char>)>| #[trigger] lists_open_windows(m, ws, text)
}

/// `ws` holds each open window of `m` once, as its id and the name of its
/// definition, and `text` is a line `id: name` for each, joined by line
/// feeds.
pub open spec fn lists_open_windows(m: Map<Seq<char>, WindowEntry>, ws: Seq<(Seq<char>, Seq<char>)>, text: Seq<char>) -> bool {
    &&& forall|a: int, b: int| 0 <= a < b < ws.len() ==> #[trigger] ws[a].0 != #[trigger] ws[b].0
    &&& forall|j: int| 0 <= j < ws.len() ==> is_open_in(m, (#[trigger] ws[j]).0) && ws[j].1 == m[ws[j].0].args.window_name@
    &&& forall|k: Seq<char>| is_open_in(m, k) ==> exists|j: int| 0 <= j < ws.len() && #[trigger] ws[j].0 == k
    &&& text == join(ws.map_values(|w: (Seq<char>, Seq<char>)| state_line(w.0, w.1)), seq!['\n'])
}

/// What handling `command` does to the book (`old_m` into `new_m`) and
/// gives as outcome: see [`handle_command`].
pub open spec fn command_handled<E>(
    old_m: Map<Seq<char>, WindowEntry>,
    new_m: Map<Seq<char>, WindowEntry>,
    r: CommandOutcome,
    command: DaemonCommand,
    graph: ScopeGraph<E>,
) -> bool {
        match command {
            DaemonCommand::OpenWindow { window_name, instance_id, pos, size, anchor, screen, should_toggle, duration, args, sender } =>
                open_window_handled(old_m, new_m, r, window_name, instance_id, pos, size, anchor, screen, should_toggle, duration, sender, args),
            DaemonCommand::CloseWindows { windows, auto_reopen, sender } => {
                let v = windows@.map_values(|s: String| s@);
                let failures = close_failures(old_m, v, auto_reopen);
                &&& new_m == close_each(old_m, v, auto_reopen)
                &&& r matches CommandOutcome::Closed { closed, reopen, reply }
                &&& closed@.map_values(|c: (String, ScopeIndex)| (c.0@, c.1)) == closed_by_each(old_m, v, auto_reopen)
                &&& reopen@.map_values(|s: String| s@) == if auto_reopen {
                    closed_by_each(old_m, v, auto_reopen).map_values(|c: (Seq<char>, ScopeIndex)| c.0)
                } else {
                    Seq::empty()
                }
                &&& reply matches Some((s, response)) && s == sender && if failures.len() == 0 {
                    response matches DaemonResponse::Success(m) && m@.len() == 0
                } else {
                    response matches DaemonResponse::Failure(m) && m@ == join(failures, seq!['\n'])
                }
            },
            DaemonCommand::CloseAll => {
                &&& forall|k: Seq<char>| #[trigger] new_m.contains_key(k) == (old_m.contains_key(k) && !is_open_in(
                    old_m,
                    k,
                ))
                &&& forall|k: Seq<char>| #[trigger] new_m.contains_key(k) ==> new_m[k] == old_m[k]
                &&& r matches CommandOutcome::Closed { closed, reopen, reply }
                &&& reopen@.len() == 0 && reply is None
                &&& forall|a: int, b: int| 0 <= a < b < closed@.len() ==> #[trigger] closed@[a].0@ != #[trigger] closed@[b].0@
                &&& forall|j: int| 0 <= j < closed@.len() ==> open_scope(old_m, (#[trigger] closed@[j]).0@) == Some(
                    closed@[j].1,
                )
                &&& forall|k: Seq<char>| is_open_in(old_m, k) ==> exists|j: int| 0 <= j < closed@.len() && #[trigger] closed@[j].0@ == k
            },
            DaemonCommand::KillServer => {
                &&& new_m == crate::window_registry::after_stop(old_m)
                &&& r matches CommandOutcome::Stop { ids }
                &&& forall|a: int, b: int| 0 <= a < b < ids@.len() ==> #[trigger] ids@[a]@ != #[trigger] ids@[b]@
                &&& forall|k: Seq<char>| (exists|j: int| 0 <= j < ids@.len() && #[trigger] ids@[j]@ == k) <==> is_open_in(old_m, k)
            },
            DaemonCommand::ListActiveWindows(sender) => {
                &&& new_m == old_m
                &&& r matches CommandOutcome::Closed { closed, reopen, reply }
                &&& closed@.len() == 0 && reopen@.len() == 0
                &&& reply matches Some((s, DaemonResponse::Success(m)))
                &&& s == sender
                &&& active_windows_text(old_m, m@)
            },
            DaemonCommand::PrintState { all, sender } => {
                let globals = graph.scopes()[graph.root().0].data;
                &&& new_m == old_m
                &&& r matches CommandOutcome::Closed { closed, reopen, reply }
                &&& closed@.len() == 0 && reopen@.len() == 0
                &&& reply matches Some((s, DaemonResponse::Success(m)))
                &&& s == sender
                &&& m@ == join(
                    state_lines(globals.names(), globals@, Set::new(|v: Seq<char>| graph.used_below(graph.root(), v)), all),
                    seq!['\n'],
                )
            },
            DaemonCommand::GetVar { name, sender } => {
                &&& new_m == old_m
                &&& r matches CommandOutcome::Closed { closed, reopen, reply }
                &&& closed@.len() == 0 && reopen@.len() == 0
                &&& reply matches Some((s, response)) && s == sender && match graph.scopes()[graph.root().0].data@.get(name@) {
                    Some(v) => response matches DaemonResponse::Success(m) && m@ == v@,
                    None => response matches DaemonResponse::Failure(m) && m@ == "Variable not found \""@ + name@ + "\""@,
                }
            },
            _ => new_m == old_m && r is Forward,
        }
}

/// Handles a command as far as the windows go. A command to open a window
/// that is open, with `should_toggle`, closes it instead and answers success;
/// else the window's arguments are kept and the window is to be opened.
/// Closing windows answers success, or a failure that lists the windows
/// that were not open. Closing all windows answers nothing; killing the
/// daemon closes them all on shutdown; listing the active windows answers
/// the list. Printing the state answers a line `name: value` for each
/// global variable of `graph`, or only for those that some scope of the graph
/// listens to; asking for a global variable answers its value, or a failure
/// when there is none. Every other command is handed on unchanged; one that
/// opens several windows goes through [`open_many_step`] for each.
#[verifier::rlimit(60)]
#[verifier::spinoff_prover]
pub fn handle_command<E>(reg: &mut WindowRegistry, graph: &ScopeGraph<E>, command: DaemonCommand) -> (r: CommandOutcome)
    requires
        old(reg).wf(),
        graph.wf(),
        command is PrintState || command is GetVar ==> graph.scopes().contains_key(graph.root().0),
    ensures
        final(reg).wf(),
        command_handled(old(reg)@, final(reg)@, r, command, *graph),
{
    let ghost c = command;
    let r = match command {
        DaemonCommand::OpenWindow {
            window_name,
            instance_id,
            pos,
            size,
            anchor,
            screen,
            should_toggle,
            duration,
            sender,
            args,
        } => {
            let out = open_window_command(reg, window_name, instance_id, pos, size, anchor, screen, should_toggle, duration, sender, args);
            assert(command_handled(old(reg)@, reg@, out, c, *graph));
            out
        },
        DaemonCommand::CloseWindows { windows, auto_reopen, sender } => {
            let (closed, reopen, errors) = close_windows(reg, &windows, auto_reopen);
            let response = response_for_errors(&errors);
            let out = CommandOutcome::Closed { closed, reopen, reply: Some((sender, response)) };
            assert(command_handled(old(reg)@, reg@, out, c, *graph));
            out
        },
        DaemonCommand::CloseAll => {
            let closed = close_all(reg);
            let out = CommandOutcome::Closed { closed, reopen: Vec::new(), reply: None };
            assert(command_handled(old(reg)@, reg@, out, c, *graph));
            out
        },
        DaemonCommand::KillServer => {
            let ids = reg.stop();
            let ghost m = old(reg)@;
            proof {
                assert(reg@ == crate::window_registry::after_stop(m));
                assert(forall|a: int, b: int| 0 <= a < b < ids@.len() ==> #[trigger] ids@[a]@ != #[trigger] ids@[b]@);
                assert(forall|k: Seq<char>| (exists|j: int| 0 <= j < ids@.len() && #[trigger] ids@[j]@ == k) <==> is_open_in(m, k));
            }
            let out = CommandOutcome::Stop { ids };
            assert(command_handled(old(reg)@, reg@, out, c, *graph));
            out
        },
        DaemonCommand::ListActiveWindows(sender) => {
            let windows = reg.active_windows();
            let output = active_windows_output(&windows);
            proof {
                let ws = windows@.map_values(|w: (String, String)| (w.0@, w.1@));
                assert(ws.map_values(|w: (Seq<char>, Seq<char>)| state_line(w.0, w.1)) =~= windows@.map_values(
                    |w: (String, String)| state_line(w.0@, w.1@),
                ));
                assert forall|k: Seq<char>| is_open_in(reg@, k) implies exists|j: int| 0 <= j < ws.len() && #[trigger] ws[j].0
                    == k by {
                    let j = choose|j: int| 0 <= j < windows@.len() && #[trigger] windows@[j].0@ == k;
                    assert(ws[j].0 == k);
                }
                assert forall|a: int, b: int| 0 <= a < b < ws.len() implies #[trigger] ws[a].0 != #[trigger] ws[b].0 by {
                    assert(windows@[a].0@ != windows@[b].0@);
                }
                assert forall|j: int| 0 <= j < ws.len() implies is_open_in(reg@, (#[trigger] ws[j]).0) && ws[j].1
                    == reg@[ws[j].0].args.window_name@ by {
                    assert(ws[j] == (windows@[j].0@, windows@[j].1@));
                }
                assert(lists_open_windows(reg@, ws, output@));
                assert(active_windows_text(reg@, output@));
            }
            CommandOutcome::Closed {
                closed: Vec::new(),
                reopen: Vec::new(),
                reply: Some((sender, DaemonResponse::Success(output))),
            }
        },
        DaemonCommand::PrintState { all, sender } => {
            let used = graph.currently_used_globals();
            let global = graph.global_scope();
            proof {
                graph.law_scopes_in_range(graph.root().0);
                assert(used@.dom() =~= Set::new(|v: Seq<char>| graph.used_below(graph.root(), v)));
            }
            let output = state_output(&global.data, &used, all);
            CommandOutcome::Closed {
                closed: Vec::new(),
                reopen: Vec::new(),
                reply: Some((sender, DaemonResponse::Success(output))),
            }
        },
        DaemonCommand::GetVar { name, sender } => {
            let global = graph.global_scope();
            proof {
                graph.law_scopes_in_range(graph.root().0);
            }
            let response = get_var_response(&global.data, name.as_str());
            CommandOutcome::Closed { closed: Vec::new(), reopen: Vec::new(), reply: Some((sender, response)) }
        },
        other => {
            proof {
                assert(reg@ == old(reg)@);
            }
            let out = CommandOutcome::Forward(other);
            assert(command_handled(old(reg)@, reg@, out, c, *graph));
            out
        },
    };
    proof {
        assert(command_handled(old(reg)@, reg@, r, c, *graph));
    }
    r
}

} // verus!
