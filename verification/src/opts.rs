//! The command line: the values it gives to window commands, and the actions
//! that the daemon carries out.

use vstd::prelude::*;
use crate::commands::DaemonCommand;
use crate::coords::Coords;
use crate::daemon_response::{create_pair, DaemonResponse};
use crate::monitor::MonitorIdentifier;
use crate::names::VarName;
use crate::text::{split_once_char, split_once_spec};
use tokio::sync::mpsc::UnboundedReceiver;

verus! {

/// Actions that need no running daemon.
#[derive(Debug, PartialEq, Eq, Structural, Clone, Copy)]
pub enum ActionClientOnly {
    /// Print and watch the eww logs
    Logs,
}

/// Why a command line value could not be read.
#[derive(Debug, Clone, PartialEq, Eq)]
pub enum OptsError {
    /// The argument has no `=` between variable name and value.
    MissingEquals(String),
}

/// Parse a window-name:window-id pair of the form `name:id` or `name` into
/// a tuple of `(name, id)`.
pub fn parse_window_config_and_id(s: &str) -> (r: Result<(String, String), OptsError>)
    ensures
        match split_once_spec(s@, ':') {
            Some((name, id)) => r matches Ok((n, i)) && n@ == name && i@ == id,
            None => r matches Ok((n, i)) && n@ == s@ && i@ == s@,
        },
{
    match split_once_char(s, ':') {
        Some((name, id)) => Ok((name, id)),
        None => Ok((s.to_owned(), s.to_owned())),
    }
}

/// Split the input string at the first `=` into the variable's name and
/// its new value.
pub fn parse_var_update_arg(s: &str) -> (r: Result<(VarName, String), OptsError>)
    ensures
        match split_once_spec(s@, '=') {
            Some((name, value)) => r matches Ok((n, v)) && n@ == name && v@ == value,
            None => r matches Err(OptsError::MissingEquals(t)) && t@ == s@,
        },
{
    match split_once_char(s, '=') {
        Some((name, value)) => Ok((VarName(name), value)),
        None => Err(OptsError::MissingEquals(s.to_owned())),
    }
}

/// Parse a window-id specific variable value declaration with the syntax
/// `window-id:variable_name="new_value"` into a tuple of
/// `(id, variable_name, new_value)`. The `=` is looked for first, so that
/// a missing id leaves the id empty.
pub fn parse_window_id_args(s: &str) -> (r: Result<(String, VarName, String), OptsError>)
    ensures
        match split_once_spec(s@, '=') {
            Some((name, value)) => match split_once_spec(name, ':') {
                Some((id, var)) => r matches Ok((i, n, v)) && i@ == id && n@ == var && v@ == value,
                None => r matches Ok((i, n, v)) && i@.len() == 0 && n@ == name && v@ == value,
            },
            None => r matches Err(OptsError::MissingEquals(t)) && t@ == s@,
        },
{
    let (name, value) = match parse_var_update_arg(s) {
        Ok(p) => p,
        Err(e) => {
            return Err(e);
        },
    };
    match split_once_char(name.0.as_str(), ':') {
        Some((id, var_name)) => Ok((id, VarName(var_name), value)),
        None => Ok((String::new(), name, value)),
    }
}

/// Actions that are carried out by the running daemon. The anchor and the
/// duration of a window are kept as the texts that were given.
#[derive(Debug)]
pub enum ActionWithServer {
    /// Ping the eww server, checking if it is reachable.
    Ping,
    /// Update the value of a variable, in a running eww instance
    Update { mappings: Vec<(VarName, String)> },
    /// Update a polling variable using its script.
    Poll { names: Vec<VarName> },
    /// Open the GTK debugger
    OpenInspector,
    /// Open a window
    OpenWindow {
        window_name: String,
        id: Option<String>,
        screen: Option<MonitorIdentifier>,
        pos: Option<Coords>,
        size: Option<Coords>,
        anchor: Option<String>,
        should_toggle: bool,
        duration: Option<String>,
        args: Option<Vec<(VarName, String)>>,
    },
    /// Open multiple windows at once.
    OpenMany { windows: Vec<(String, String)>, args: Vec<(String, VarName, String)>, should_toggle: bool },
    /// Close the given windows
    CloseWindows { windows: Vec<String> },
    /// Reload the configuration
    Reload,
    /// Kill the eww daemon
    KillServer,
    /// Close all windows, without killing the daemon
    CloseAll,
    /// Prints the variables used in all currently open window
    ShowState { all: bool },
    /// Get the value of a variable if defined
    GetVar { name: String },
    /// List the names of active windows
    ListWindows,
    /// Show active window IDs
    ListActiveWindows,
    /// Print out the widget structure as seen by eww.
    ShowDebug,
    /// Print out the scope graph structure in graphviz dot format.
    ShowGraph,
}

impl ActionWithServer {
    /// Whether this action may start the daemon when none is running: only
    /// opening windows does.
    pub fn can_start_daemon(&self) -> (b: bool)
        ensures
            b == (self is OpenWindow || self is OpenMany),
    {
        match self {
            ActionWithServer::OpenWindow { .. } | ActionWithServer::OpenMany { .. } => true,
            _ => false,
        }
    }

    /// The daemon command for this action, with the receiving half of the
    /// channel that its response comes back on when it has one. A ping is
    /// answered here: its channel already holds `pong`. Closing windows from
    /// the command line never reopens them.
    pub fn into_daemon_command(self) -> (r: (DaemonCommand, Option<UnboundedReceiver<DaemonResponse>>))
        ensures
            match self {
                ActionWithServer::Ping => r.0 is NoOp && r.1 is Some,
                ActionWithServer::Update { mappings } => r.0 == DaemonCommand::UpdateVars(mappings) && r.1 is None,
                ActionWithServer::Poll { names } => r.0 == DaemonCommand::PollVars(names) && r.1 is None,
                ActionWithServer::OpenInspector => r.0 is OpenInspector && r.1 is None,
                ActionWithServer::KillServer => r.0 is KillServer && r.1 is None,
                ActionWithServer::CloseAll => r.0 is CloseAll && r.1 is None,
                ActionWithServer::OpenMany { windows, args, should_toggle } => {
                    &&& r.1 is Some
                    &&& r.0 matches DaemonCommand::OpenMany { windows: w, args: a, should_toggle: t, .. }
                    &&& w == windows && a == args && t == should_toggle
                },
                ActionWithServer::OpenWindow { window_name, id, screen, pos, size, anchor, should_toggle, duration, args } => {
                    &&& r.1 is Some
                    &&& r.0 matches DaemonCommand::OpenWindow {
                        window_name: n, instance_id: i, pos: p, size: s, anchor: a, screen: m, should_toggle: t,
                        duration: d, args: g, ..
                    }
                    &&& n == window_name && i == id && p == pos && s == size && a == anchor && m == screen
                    &&& t == should_toggle && d == duration && g == args
                },
                ActionWithServer::CloseWindows { windows } => {
                    &&& r.1 is Some
                    &&& r.0 matches DaemonCommand::CloseWindows { windows: w, auto_reopen, .. }
                    &&& w == windows && !auto_reopen
                },
                ActionWithServer::Reload => r.0 is ReloadConfigAndCss && r.1 is Some,
                ActionWithServer::ListWindows => r.0 is ListWindows && r.1 is Some,
                ActionWithServer::ListActiveWindows => r.0 is ListActiveWindows && r.1 is Some,
                ActionWithServer::ShowState { all } => {
                    &&& r.1 is Some
                    &&& r.0 matches DaemonCommand::PrintState { all: a, .. }
                    &&& a == all
                },
                ActionWithServer::GetVar { name } => {
                    &&& r.1 is Some
                    &&& r.0 matches DaemonCommand::GetVar { name: n, .. }
                    &&& n == name
                },
                ActionWithServer::ShowDebug => r.0 is PrintDebug && r.1 is Some,
                ActionWithServer::ShowGraph => r.0 is PrintGraph && r.1 is Some,
            },
    {
        match self {
            ActionWithServer::Update { mappings } => (DaemonCommand::UpdateVars(mappings), None),
            ActionWithServer::Poll { names } => (DaemonCommand::PollVars(names), None),
            ActionWithServer::OpenInspector => (DaemonCommand::OpenInspector, None),
            ActionWithServer::KillServer => (DaemonCommand::KillServer, None),
            ActionWithServer::CloseAll => (DaemonCommand::CloseAll, None),
            ActionWithServer::Ping => {
                let (sender, recv) = create_pair();
                let _ = sender.send(DaemonResponse::Success("pong".to_owned()));
                (DaemonCommand::NoOp, Some(recv))
            },
            ActionWithServer::OpenMany { windows, args, should_toggle } => {
                let (sender, recv) = create_pair();
                (DaemonCommand::OpenMany { windows, args, should_toggle, sender }, Some(recv))
            },
            ActionWithServer::OpenWindow { window_name, id, screen, pos, size, anchor, should_toggle, duration, args } => {
                let (sender, recv) = create_pair();
                (
                    DaemonCommand::OpenWindow {
                        window_name,
                        instance_id: id,
                        pos,
                        size,
                        anchor,
                        screen,
                        should_toggle,
                        duration,
                        sender,
                        args,
                    },
                    Some(recv),
                )
            },
            ActionWithServer::CloseWindows { windows } => {
                let (sender, recv) = create_pair();
                (DaemonCommand::CloseWindows { windows, auto_reopen: false, sender }, Some(recv))
            },
            ActionWithServer::Reload => {
                let (sender, recv) = create_pair();
                (DaemonCommand::ReloadConfigAndCss(sender), Some(recv))
            },
            ActionWithServer::ListWindows => {
                let (sender, recv) = create_pair();
                (DaemonCommand::ListWindows(sender), Some(recv))
            },
            ActionWithServer::ListActiveWindows => {
                let (sender, recv) = create_pair();
                (DaemonCommand::ListActiveWindows(sender), Some(recv))
            },
            ActionWithServer::ShowState { all } => {
                let (sender, recv) = create_pair();
                (DaemonCommand::PrintState { all, sender }, Some(recv))
            },
            ActionWithServer::GetVar { name } => {
                let (sender, recv) = create_pair();
                (DaemonCommand::GetVar { name, sender }, Some(recv))
            },
            ActionWithServer::ShowDebug => {
                let (sender, recv) = create_pair();
                (DaemonCommand::PrintDebug(sender), Some(recv))
            },
            ActionWithServer::ShowGraph => {
                let (sender, recv) = create_pair();
                (DaemonCommand::PrintGraph(sender), Some(recv))
            },
        }
    }
}

} // verus!
