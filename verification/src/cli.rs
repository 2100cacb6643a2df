//! What the eww binary does with its command line. The binary talks to the
//! daemon, forks it and prints; [`RunStage::step`] decides, from what each
//! of those gave, what comes next: whether the old daemon is stopped first,
//! when a daemon is started, and when the logs are shown.

use vstd::prelude::*;
use std::path::PathBuf;
use crate::daemon_response::DaemonResponse;
use crate::opts::{ActionClientOnly, ActionWithServer};
use crate::text::{chars_of, contains_seq, contains_str};

verus! {

/// What the command line asks of eww.
#[derive(Debug)]
pub enum Action {
    /// Generate a shell completion script for the shell of that name.
    ShellCompletions { shell: String },
    /// Start the Eww daemon.
    Daemon,
    /// An action that needs no daemon.
    ClientOnly(ActionClientOnly),
    /// An action that the daemon carries out.
    WithServer(ActionWithServer),
}

/// The options of the command line.
#[derive(Debug)]
pub struct Opt {
    pub force_wayland: bool,
    pub log_debug: bool,
    pub show_logs: bool,
    pub restart: bool,
    pub config_path: Option<PathBuf>,
    pub action: Action,
    pub no_daemonize: bool,
}

/// Whether the session is a wayland one, from the values of
/// `XDG_SESSION_TYPE` and `WAYLAND_DISPLAY` (empty where unset): the session
/// type says wayland, or a wayland display is set and the session type does
/// not say x11.
pub fn detect_wayland(session_type: &str, wayland_display: &str) -> (b: bool)
    ensures
        b == (contains_seq(session_type@, "wayland"@) || (wayland_display@.len() > 0 && !contains_seq(
            session_type@,
            "x11"@,
        ))),
{
    let display = chars_of(wayland_display);
    contains_str(session_type, "wayland") || (display.len() > 0 && !contains_str(session_type, "x11"))
}

/// Whether an action may start the daemon when none runs.
pub open spec fn starts_daemon(a: ActionWithServer) -> bool {
    a is OpenWindow || a is OpenMany
}

/// Whether the action of the command line may start the daemon.
pub open spec fn may_start_daemon(opt: Opt) -> bool {
    match opt.action {
        Action::WithServer(a) => starts_daemon(a),
        _ => false,
    }
}

/// Whether the daemon is stopped before the action is carried out: for
/// `--restart` with the daemon action or an action that may start one.
pub open spec fn restarts(opt: Opt) -> bool {
    match opt.action {
        Action::Daemon => opt.restart,
        Action::WithServer(a) => opt.restart && starts_daemon(a),
        _ => false,
    }
}

impl Opt {
    /// Whether the daemon is stopped before the action is carried out.
    pub fn should_restart(&self) -> (b: bool)
        requires
            !(self.action is ShellCompletions),
        ensures
            b == restarts(*self),
    {
        match &self.action {
            Action::Daemon => self.restart,
            Action::WithServer(a) => self.restart && a.can_start_daemon(),
            _ => false,
        }
    }
}

/// Where a run of the binary stands.
#[derive(Debug, PartialEq, Eq, Structural)]
pub enum RunStage {
    /// Nothing is done yet.
    Begin,
    /// A running daemon was asked to stop.
    Restarting,
    /// The stopped daemon's answer is being printed.
    RestartReported,
    /// Waiting a moment for the old daemon to go.
    Pausing,
    /// The client-only action is being carried out.
    RunningClientAction,
    /// Finding out whether a daemon runs.
    CheckingDaemon,
    /// Telling that a daemon runs already.
    ReportingRunning,
    /// The kill command was sent.
    AwaitingKillReply,
    /// The action was sent to the daemon.
    AwaitingReply,
    /// A daemon is being started, handed the action as a command or not.
    Forking { with_command: bool },
    /// The daemon's answer is being printed; the logs follow when
    /// `show_logs_after` and asked for.
    Printing { show_logs_after: bool },
    /// Waiting for the answer of the daemon that was just started.
    Listening,
    /// The logs are being shown.
    ShowingLogs,
    /// The run is over.
    Finished,
}

/// What the binary reports after carrying out a [`RunAction`].
#[derive(Debug)]
pub enum RunEvent {
    /// The run begins.
    Start,
    /// The last action is done, with nothing to report.
    Done,
    /// Whether a daemon answered a ping.
    DaemonRunning(bool),
    /// What came of sending to the daemon: its answer, if it gave one, or
    /// why it could not be reached.
    Reply(Result<Option<DaemonResponse>, String>),
    /// The daemon was started; `is_parent` in the process that started it.
    Forked { is_parent: bool },
}

/// What the binary does next.
#[derive(Debug, PartialEq, Eq)]
pub enum RunAction {
    /// Send the kill command to a running daemon, with one attempt to
    /// connect.
    StopDaemon,
    /// Wait a moment (200 ms).
    Pause,
    /// Carry out the client-only action.
    RunClientOnly(ActionClientOnly),
    /// Ping the daemon to find out whether one runs.
    CheckDaemonRunning,
    /// Tell that a daemon runs already.
    ReportRunning,
    /// Remove the old socket, print how to see the logs when `print_hint`,
    /// and start the daemon, handed the action as its first command when
    /// `with_command`, detached from the terminal when `daemonize`.
    StartDaemon { with_command: bool, daemonize: bool, print_hint: bool },
    /// Send the action to the daemon, with `attempts` attempts to connect.
    SendToDaemon { attempts: usize },
    /// Print the daemon's answer.
    PrintSuccess(String),
    /// Print the daemon's failure and exit with status 1.
    ExitWithFailure(String),
    /// Wait a moment for the answer of the started daemon, and print it.
    ListenForResponse,
    /// Show the logs.
    ShowLogs,
    /// The run is over.
    Finish,
    /// The run failed for this reason.
    Fail(String),
}

/// The end of a run: the logs when the action would show them and they are
/// asked for, else nothing.
pub open spec fn after_finish(opt: Opt, would_show: bool) -> (RunStage, RunAction) {
    if would_show && opt.show_logs {
        (RunStage::ShowingLogs, RunAction::ShowLogs)
    } else {
        (RunStage::Finished, RunAction::Finish)
    }
}

/// The first step of the action itself.
pub open spec fn after_dispatch(opt: Opt) -> (RunStage, RunAction) {
    match opt.action {
        Action::ClientOnly(a) => (RunStage::RunningClientAction, RunAction::RunClientOnly(a)),
        Action::Daemon => (RunStage::CheckingDaemon, RunAction::CheckDaemonRunning),
        Action::WithServer(a) => if a is KillServer {
            (RunStage::AwaitingKillReply, RunAction::SendToDaemon { attempts: 1 })
        } else {
            (RunStage::AwaitingReply, RunAction::SendToDaemon { attempts: 5 })
        },
        Action::ShellCompletions { .. } => (RunStage::Finished, RunAction::Finish),
    }
}

/// The step after an answer to the action or to the kill command: the
/// answer is printed, a failure ends the run, and a daemon that cannot be
/// reached is started when the action may start one and `--no-daemonize`
/// was not given.
pub open spec fn after_reply(opt: Opt, kill: bool, reply: Result<Option<DaemonResponse>, String>) -> (RunStage, RunAction) {
    match reply {
        Ok(Some(DaemonResponse::Success(m))) => (RunStage::Printing { show_logs_after: !kill }, RunAction::PrintSuccess(m)),
        Ok(Some(DaemonResponse::Failure(m))) => (RunStage::Finished, RunAction::ExitWithFailure(m)),
        Ok(None) => after_finish(opt, !kill),
        Err(e) => if !kill && may_start_daemon(opt) && !opt.no_daemonize {
            (
                RunStage::Forking { with_command: true },
                RunAction::StartDaemon { with_command: true, daemonize: true, print_hint: !opt.show_logs },
            )
        } else {
            (RunStage::Finished, RunAction::Fail(e))
        },
    }
}

/// Whether `event` is one that the binary can report in `stage`.
pub open spec fn accepts(stage: RunStage, event: RunEvent) -> bool {
    match stage {
        RunStage::Begin => event is Start,
        RunStage::Restarting | RunStage::AwaitingKillReply | RunStage::AwaitingReply => event is Reply,
        RunStage::CheckingDaemon => event is DaemonRunning,
        RunStage::Forking { .. } => event is Forked,
        RunStage::Finished => false,
        _ => event is Done,
    }
}

/// Where a run goes from `stage` on `event`, and what the binary does.
pub open spec fn transition(opt: Opt, stage: RunStage, event: RunEvent) -> (RunStage, RunAction) {
    match (stage, event) {
        (RunStage::Begin, _) => if restarts(opt) {
            (RunStage::Restarting, RunAction::StopDaemon)
        } else {
            after_dispatch(opt)
        },
        (RunStage::Restarting, RunEvent::Reply(reply)) => match reply {
            Ok(Some(DaemonResponse::Success(m))) => (RunStage::RestartReported, RunAction::PrintSuccess(m)),
            Ok(Some(DaemonResponse::Failure(m))) => (RunStage::Finished, RunAction::ExitWithFailure(m)),
            _ => (RunStage::Pausing, RunAction::Pause),
        },
        (RunStage::RestartReported, _) => (RunStage::Pausing, RunAction::Pause),
        (RunStage::Pausing, _) => after_dispatch(opt),
        (RunStage::RunningClientAction, _) => after_finish(opt, false),
        (RunStage::CheckingDaemon, RunEvent::DaemonRunning(running)) => if running {
            (RunStage::ReportingRunning, RunAction::ReportRunning)
        } else {
            (
                RunStage::Forking { with_command: false },
                RunAction::StartDaemon { with_command: false, daemonize: !opt.no_daemonize, print_hint: !opt.show_logs },
            )
        },
        (RunStage::ReportingRunning, _) => after_finish(opt, true),
        (RunStage::AwaitingKillReply, RunEvent::Reply(reply)) => after_reply(opt, true, reply),
        (RunStage::AwaitingReply, RunEvent::Reply(reply)) => after_reply(opt, false, reply),
        (RunStage::Forking { with_command }, RunEvent::Forked { is_parent }) => if !with_command {
            after_finish(opt, opt.no_daemonize || is_parent)
        } else if is_parent {
            (RunStage::Listening, RunAction::ListenForResponse)
        } else {
            after_finish(opt, false)
        },
        (RunStage::Printing { show_logs_after }, _) => after_finish(opt, show_logs_after),
        (RunStage::Listening, _) => after_finish(opt, true),
        (RunStage::ShowingLogs, _) => (RunStage::Finished, RunAction::Finish),
        (s, _) => (s, RunAction::Finish),
    }
}

/// How far a stage is from the end of a run: every step lowers it.
pub open spec fn remaining(stage: RunStage) -> nat {
    match stage {
        RunStage::Begin => 8,
        RunStage::Restarting => 7,
        RunStage::RestartReported => 6,
        RunStage::Pausing => 5,
        RunStage::CheckingDaemon => 4,
        RunStage::AwaitingReply => 4,
        RunStage::AwaitingKillReply => 3,
        RunStage::Forking { .. } => 3,
        RunStage::RunningClientAction => 2,
        RunStage::ReportingRunning => 2,
        RunStage::Printing { .. } => 2,
        RunStage::Listening => 2,
        RunStage::ShowingLogs => 1,
        RunStage::Finished => 0,
    }
}

/// The end of a run.
fn finish(opt: &Opt, would_show: bool) -> (r: (RunStage, RunAction))
    ensures
        r == after_finish(*opt, would_show),
{
    if would_show && opt.show_logs {
        (RunStage::ShowingLogs, RunAction::ShowLogs)
    } else {
        (RunStage::Finished, RunAction::Finish)
    }
}

/// The first step of the action itself.
fn dispatch(opt: &Opt) -> (r: (RunStage, RunAction))
    ensures
        r == after_dispatch(*opt),
{
    match &opt.action {
        Action::ClientOnly(a) => (RunStage::RunningClientAction, RunAction::RunClientOnly(*a)),
        Action::Daemon => (RunStage::CheckingDaemon, RunAction::CheckDaemonRunning),
        Action::WithServer(ActionWithServer::KillServer) => (
            RunStage::AwaitingKillReply,
            RunAction::SendToDaemon { attempts: 1 },
        ),
        Action::WithServer(_) => (RunStage::AwaitingReply, RunAction::SendToDaemon { attempts: 5 }),
        Action::ShellCompletions { .. } => (RunStage::Finished, RunAction::Finish),
    }
}

/// The step after an answer to the action (`kill` false) or to the kill
/// command.
fn reply_step(opt: &Opt, kill: bool, reply: Result<Option<DaemonResponse>, String>) -> (r: (RunStage, RunAction))
    ensures
        r == after_reply(*opt, kill, reply),
{
    match reply {
        Ok(Some(DaemonResponse::Success(m))) => (RunStage::Printing { show_logs_after: !kill }, RunAction::PrintSuccess(m)),
        Ok(Some(DaemonResponse::Failure(m))) => (RunStage::Finished, RunAction::ExitWithFailure(m)),
        Ok(None) => finish(opt, !kill),
        Err(e) => {
            let may_start = match &opt.action {
                Action::WithServer(a) => a.can_start_daemon(),
                _ => false,
            };
            if !kill && may_start && !opt.no_daemonize {
                (
                    RunStage::Forking { with_command: true },
                    RunAction::StartDaemon { with_command: true, daemonize: true, print_hint: !opt.show_logs },
                )
            } else {
                (RunStage::Finished, RunAction::Fail(e))
            }
        },
    }
}

impl RunStage {
    /// Whether `event` is one that the binary can report now.
    pub fn accepts(&self, event: &RunEvent) -> (b: bool)
        ensures
            b == accepts(*self, *event),
    {
        match self {
            RunStage::Begin => matches!(event, RunEvent::Start),
            RunStage::Restarting | RunStage::AwaitingKillReply | RunStage::AwaitingReply => matches!(event, RunEvent::Reply(_)),
            RunStage::CheckingDaemon => matches!(event, RunEvent::DaemonRunning(_)),
            RunStage::Forking { .. } => matches!(event, RunEvent::Forked { .. }),
            RunStage::Finished => false,
            _ => matches!(event, RunEvent::Done),
        }
    }

    /// Goes on from what the binary reported, and says what it does next.
    pub fn step(&mut self, opt: &Opt, event: RunEvent) -> (r: RunAction)
        requires
            accepts(*old(self), event),
            !(opt.action is ShellCompletions),
        ensures
            (*final(self), r) == transition(*opt, *old(self), event),
            remaining(*final(self)) < remaining(*old(self)),
    {
        let (next, action) = match (&*self, event) {
            (RunStage::Begin, _) => if opt.should_restart() {
                (RunStage::Restarting, RunAction::StopDaemon)
            } else {
                dispatch(opt)
            },
            (RunStage::Restarting, RunEvent::Reply(reply)) => match reply {
                Ok(Some(DaemonResponse::Success(m))) => (RunStage::RestartReported, RunAction::PrintSuccess(m)),
                Ok(Some(DaemonResponse::Failure(m))) => (RunStage::Finished, RunAction::ExitWithFailure(m)),
                _ => (RunStage::Pausing, RunAction::Pause),
            },
            (RunStage::RestartReported, _) => (RunStage::Pausing, RunAction::Pause),
            (RunStage::Pausing, _) => dispatch(opt),
            (RunStage::RunningClientAction, _) => finish(opt, false),
            (RunStage::CheckingDaemon, RunEvent::DaemonRunning(running)) => if running {
                (RunStage::ReportingRunning, RunAction::ReportRunning)
            } else {
                (
                    RunStage::Forking { with_command: false },
                    RunAction::StartDaemon { with_command: false, daemonize: !opt.no_daemonize, print_hint: !opt.show_logs },
                )
            },
            (RunStage::ReportingRunning, _) => finish(opt, true),
            (RunStage::AwaitingKillReply, RunEvent::Reply(reply)) => reply_step(opt, true, reply),
            (RunStage::AwaitingReply, RunEvent::Reply(reply)) => reply_step(opt, false, reply),
            (RunStage::Forking { with_command }, RunEvent::Forked { is_parent }) => if !*with_command {
                finish(opt, opt.no_daemonize || is_parent)
            } else if is_parent {
                (RunStage::Listening, RunAction::ListenForResponse)
            } else {
                finish(opt, false)
            },
            (RunStage::Printing { show_logs_after }, _) => finish(opt, *show_logs_after),
            (RunStage::Listening, _) => finish(opt, true),
            (RunStage::ShowingLogs, _) => (RunStage::Finished, RunAction::Finish),
            (RunStage::Finished, _) => (RunStage::Finished, RunAction::Finish),
            (RunStage::CheckingDaemon, _) => (RunStage::Finished, RunAction::Finish),
            (RunStage::Restarting, _) => (RunStage::Finished, RunAction::Finish),
            (RunStage::AwaitingKillReply, _) => (RunStage::Finished, RunAction::Finish),
            (RunStage::AwaitingReply, _) => (RunStage::Finished, RunAction::Finish),
            (RunStage::Forking { .. }, _) => (RunStage::Finished, RunAction::Finish),
        };
        *self = next;
        action
    }
}

/// Every run of the binary ends: each step brings it closer to its end.
pub proof fn law_run_ends(opt: Opt, stage: RunStage, event: RunEvent)
    requires
        accepts(stage, event),
    ensures
        remaining(transition(opt, stage, event).0) < remaining(stage),
{
}

/// The logs are shown only when they were asked for.
pub proof fn law_logs_only_when_asked(opt: Opt, stage: RunStage, event: RunEvent)
    ensures
        transition(opt, stage, event).1 is ShowLogs ==> opt.show_logs,
{
}

/// A running daemon is stopped first only with `--restart`, and only at the
/// start of a run.
pub proof fn law_restart_only_when_asked(opt: Opt, stage: RunStage, event: RunEvent)
    ensures
        transition(opt, stage, event).1 is StopDaemon ==> restarts(opt) && stage is Begin,
{
}

/// A daemon is started with the action as its command only for an action
/// that may start it, never with `--no-daemonize`, and then always
/// detached.
pub proof fn law_daemon_started_only_when_allowed(opt: Opt, stage: RunStage, event: RunEvent)
    ensures
        transition(opt, stage, event).1 matches RunAction::StartDaemon { with_command, daemonize, .. } ==> (
        with_command ==> may_start_daemon(opt) && !opt.no_daemonize && daemonize),
{
}

/// A failure that the daemon answers ends the run with that failure.
pub proof fn law_failure_answer_ends_run(opt: Opt, stage: RunStage, m: String)
    requires
        stage is Restarting || stage is AwaitingKillReply || stage is AwaitingReply,
    ensures
        transition(opt, stage, RunEvent::Reply(Ok(Some(DaemonResponse::Failure(m)))))
            == (RunStage::Finished, RunAction::ExitWithFailure(m)),
{
}

/// Stopping the old daemon for `--restart` never ends the run because no
/// daemon could be reached or none answered: the run pauses and goes on
/// with its action. With `eww --restart daemon` the action then checks for a
/// daemon, and finding none starts one.
pub proof fn law_restart_goes_on_without_a_daemon(opt: Opt, e: String)
    ensures
        transition(opt, RunStage::Restarting, RunEvent::Reply(Err(e))) == (RunStage::Pausing, RunAction::Pause),
        transition(opt, RunStage::Restarting, RunEvent::Reply(Ok(None))) == (RunStage::Pausing, RunAction::Pause),
        opt.action is Daemon ==> transition(opt, RunStage::Pausing, RunEvent::Done) == (
            RunStage::CheckingDaemon,
            RunAction::CheckDaemonRunning,
        ),
        transition(opt, RunStage::CheckingDaemon, RunEvent::DaemonRunning(false)).1 matches RunAction::StartDaemon {
            with_command,
            ..
        } && !with_command,
{
}

/// A daemon is never detached from the terminal when `--no-daemonize` is
/// given, whether it is the daemon action or one started for an action;
/// `eww daemon` with no daemon running is detached exactly when
/// `--no-daemonize` is not given.
pub proof fn law_no_daemonize_keeps_the_daemon_attached(opt: Opt, stage: RunStage, event: RunEvent)
    ensures
        transition(opt, stage, event).1 matches RunAction::StartDaemon { daemonize, .. } ==> (daemonize
            ==> !opt.no_daemonize),
        transition(opt, RunStage::CheckingDaemon, RunEvent::DaemonRunning(false)).1 matches RunAction::StartDaemon {
            daemonize,
            ..
        } && daemonize == !opt.no_daemonize,
{
}

} // verus!
