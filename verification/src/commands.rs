//! The parts of the daemon's command handling that only compute: the
//! arguments that a window of several opened at once gets, and the answers
//! to the commands that read the state.

use vstd::prelude::*;
use crate::coords::Coords;
use crate::daemon_response::{DaemonResponse, DaemonResponseSender};
use crate::monitor::MonitorIdentifier;
use crate::names::{NameMap, VarName};
use crate::text::{chars_of, join, join_with, str_eq, string_of};

verus! {

/// A command for the eww daemon. Most are made from the command line's
/// actions (see [`crate::opts::ActionWithServer`]); the daemon makes some
/// itself. Values are kept as the texts that were given; the anchor and the
/// duration of a window too, which the daemon reads when it opens it.
#[derive(Debug)]
pub enum DaemonCommand {
    NoOp,
    UpdateVars(Vec<(VarName, String)>),
    PollVars(Vec<VarName>),
    ReloadConfigAndCss(DaemonResponseSender),
    OpenInspector,
    OpenMany {
        windows: Vec<(String, String)>,
        args: Vec<(String, VarName, String)>,
        should_toggle: bool,
        sender: DaemonResponseSender,
    },
    OpenWindow {
        window_name: String,
        instance_id: Option<String>,
        pos: Option<Coords>,
        size: Option<Coords>,
        anchor: Option<String>,
        screen: Option<MonitorIdentifier>,
        should_toggle: bool,
        duration: Option<String>,
        sender: DaemonResponseSender,
        args: Option<Vec<(VarName, String)>>,
    },
    CloseWindows { windows: Vec<String>, auto_reopen: bool, sender: DaemonResponseSender },
    KillServer,
    CloseAll,
    PrintState { all: bool, sender: DaemonResponseSender },
    GetVar { name: String, sender: DaemonResponseSender },
    PrintDebug(DaemonResponseSender),
    PrintGraph(DaemonResponseSender),
    ListWindows(DaemonResponseSender),
    ListActiveWindows(DaemonResponseSender),
}

/// The variables that the window `id` gets from `args`, a list of
/// `(window id, name, value)`: those given for it and those given for no
/// window in particular, a later one replacing an earlier one of the same
/// name.
pub open spec fn window_args_spec(args: Seq<(String, VarName, String)>, id: Seq<char>) -> Map<Seq<char>, Seq<char>>
    decreases args.len(),
{
    if args.len() == 0 {
        Map::empty()
    } else {
        let before = window_args_spec(args.drop_last(), id);
        let (win, name, value) = args.last();
        if win@.len() == 0 || win@ == id {
            before.insert(name@, value@)
        } else {
            before
        }
    }
}

/// The values of a map of strings, by their characters.
pub open spec fn text_values(m: Map<Seq<char>, String>) -> Map<Seq<char>, Seq<char>> {
    m.map_values(|v: String| v@)
}

/// The variables that the window `id` gets from `args`, a list of
/// `(window id, name, value)`.
pub fn args_for_window(args: &Vec<(String, VarName, String)>, id: &str) -> (r: NameMap<String>)
    ensures
        r.wf(),
        text_values(r@) == window_args_spec(args@, id@),
{
    let mut r: NameMap<String> = NameMap::new();
    let mut i: usize = 0;
    while i < args.len()
        invariant
            0 <= i <= args@.len(),
            r.wf(),
            text_values(r@) == window_args_spec(args@.take(i as int), id@),
        decreases args.len() - i,
    {
        let (win, name, value) = &args[i];
        proof {
            assert(args@.take(i as int + 1).drop_last() =~= args@.take(i as int));
        }
        if win.as_str().is_empty() || str_eq(win.as_str(), id) {
            r.insert(name.copy(), value.clone());
            proof {
                assert(text_values(r@) =~= window_args_spec(args@.take(i as int + 1), id@));
            }
        }
        i = i + 1;
    }
    proof {
        assert(args@.take(args@.len() as int) =~= args@);
    }
    r
}

/// The answer to a request for the global variable `name`: its value, or a
/// failure when there is no such variable.
pub fn get_var_response(globals: &NameMap<String>, name: &str) -> (r: DaemonResponse)
    requires
        globals.wf(),
    ensures
        match globals@.get(name@) {
            Some(v) => r matches DaemonResponse::Success(m) && m@ == v@,
            None => r matches DaemonResponse::Failure(m) && m@ == "Variable not found \""@ + name@ + "\""@,
        },
{
    match globals.get(&VarName::from_str_slice(name)) {
        Some(v) => DaemonResponse::Success(v.clone()),
        None => {
            let mut c = chars_of("Variable not found \"");
            let n = chars_of(name);
            let ghost base = c@;
            let mut i: usize = 0;
            while i < n.len()
                invariant
                    0 <= i <= n@.len(),
                    c@ == base + n@.take(i as int),
                decreases n.len() - i,
            {
                c.push(n[i]);
                i = i + 1;
                assert(c@ =~= base + n@.take(i as int));
            }
            c.push('"');
            proof {
                reveal_strlit("\"");
                assert("\""@ =~= seq!['"']);
                assert(n@.take(n@.len() as int) =~= n@);
                assert(c@ =~= base + name@ + "\""@);
            }
            DaemonResponse::Failure(string_of(&c))
        },
    }
}

/// The line `name: value`.
pub open spec fn state_line(name: Seq<char>, value: Seq<char>) -> Seq<char> {
    name + seq![':', ' '] + value
}

/// The lines `name: value` of the global variables `names` with their
/// values in `globals`, of all of them or only of those in `used`.
pub open spec fn state_lines(names: Seq<Seq<char>>, globals: Map<Seq<char>, String>, used: Set<Seq<char>>, all: bool) -> Seq<Seq<char>>
    decreases names.len(),
{
    if names.len() == 0 {
        Seq::empty()
    } else {
        let before = state_lines(names.drop_last(), globals, used, all);
        let n = names.last();
        if all || used.contains(n) {
            before.push(state_line(n, globals[n]@))
        } else {
            before
        }
    }
}

/// The state of the global variables, as the `state` command prints it:
/// a line `name: value` for each variable, or only for those that some
/// window uses.
pub fn state_output(globals: &NameMap<String>, used: &NameMap<()>, all: bool) -> (r: String)
    requires
        globals.wf(),
        used.wf(),
    ensures
        r@ == join(state_lines(globals.names(), globals@, used@.dom(), all), seq!['\n']),
{
    let mut lines: Vec<Vec<char>> = Vec::new();
    let mut i: usize = 0;
    while i < globals.len()
        invariant
            globals.wf(),
            used.wf(),
            0 <= i <= globals.names().len(),
            lines@.map_values(|l: Vec<char>| l@) == state_lines(globals.names().take(i as int), globals@, used@.dom(), all),
        decreases globals.names().len() - i,
    {
        let name = globals.name_at(i);
        let value = globals.value_at(i);
        let ghost before = lines@.map_values(|l: Vec<char>| l@);
        proof {
            assert(globals.names().take(i as int + 1).drop_last() =~= globals.names().take(i as int));
            assert(globals.names().take(i as int + 1).last() == name@);
        }
        if all || used.contains_key(name) {
            let mut line = chars_of(name.0.as_str());
            line.push(':');
            line.push(' ');
            let v = chars_of(value.as_str());
            let ghost base = line@;
            let mut k: usize = 0;
            while k < v.len()
                invariant
                    0 <= k <= v@.len(),
                    line@ == base + v@.take(k as int),
                decreases v.len() - k,
            {
                line.push(v[k]);
                k = k + 1;
                assert(line@ =~= base + v@.take(k as int));
            }
            proof {
                assert(v@.take(v@.len() as int) =~= v@);
                assert(line@ =~= state_line(name@, value@));
            }
            lines.push(line);
            proof {
                assert(lines@.map_values(|l: Vec<char>| l@) =~= before.push(state_line(name@, globals@[name@]@)));
            }
        }
        i = i + 1;
    }
    proof {
        assert(globals.names().take(globals.names().len() as int) =~= globals.names());
    }
    string_of(&join_with(&lines, '\n'))
}

/// The open windows as the `active-windows` command prints them: a line
/// `id: name` for each window.
pub fn active_windows_output(windows: &Vec<(String, String)>) -> (r: String)
    ensures
        r@ == join(windows@.map_values(|w: (String, String)| state_line(w.0@, w.1@)), seq!['\n']),
{
    let mut lines: Vec<Vec<char>> = Vec::new();
    let mut i: usize = 0;
    while i < windows.len()
        invariant
            0 <= i <= windows@.len(),
            lines@.map_values(|l: Vec<char>| l@) == windows@.take(i as int).map_values(|w: (String, String)| state_line(w.0@, w.1@)),
        decreases windows.len() - i,
    {
        let (id, name) = &windows[i];
        let mut line = chars_of(id.as_str());
        line.push(':');
        line.push(' ');
        let v = chars_of(name.as_str());
        let ghost base = line@;
        let mut k: usize = 0;
        while k < v.len()
            invariant
                0 <= k <= v@.len(),
                line@ == base + v@.take(k as int),
            decreases v.len() - k,
        {
            line.push(v[k]);
            k = k + 1;
            assert(line@ =~= base + v@.take(k as int));
        }
        let ghost before = lines@.map_values(|l: Vec<char>| l@);
        proof {
            assert(v@.take(v@.len() as int) =~= v@);
            assert(line@ =~= state_line(id@, name@));
        }
        lines.push(line);
        proof {
            assert(lines@.map_values(|l: Vec<char>| l@) =~= before.push(state_line(id@, name@)));
            assert(windows@.take(i as int + 1).map_values(|w: (String, String)| state_line(w.0@, w.1@))
                =~= windows@.take(i as int).map_values(|w: (String, String)| state_line(w.0@, w.1@)).push(state_line(id@, name@)));
        }
        i = i + 1;
    }
    proof {
        assert(windows@.take(windows@.len() as int) =~= windows@);
    }
    string_of(&join_with(&lines, '\n'))
}

} // verus!
