use eww::cli::{detect_wayland, Action, Opt, RunAction, RunEvent, RunStage};
use eww::daemon_response::DaemonResponse;
use eww::opts::{ActionClientOnly, ActionWithServer};

fn opt(action: Action, restart: bool, show_logs: bool, no_daemonize: bool) -> Opt {
    Opt { force_wayland: false, log_debug: false, show_logs, restart, config_path: None, action, no_daemonize }
}

fn open_window() -> ActionWithServer {
    ActionWithServer::OpenWindow {
        window_name: "bar".to_string(),
        id: None,
        screen: None,
        pos: None,
        size: None,
        anchor: None,
        should_toggle: false,
        duration: None,
        args: None,
    }
}

fn run(opt: &Opt, events: Vec<RunEvent>) -> Vec<RunAction> {
    let mut stage = RunStage::Begin;
    let mut actions = Vec::new();
    for event in events {
        assert!(stage.accepts(&event), "{:?} does not accept {:?}", stage, event);
        actions.push(stage.step(opt, event));
    }
    assert_eq!(stage, RunStage::Finished);
    actions
}

#[test]
fn wayland_detection() {
    assert!(detect_wayland("wayland", ""));
    assert!(detect_wayland("x11-wayland", "wayland-0"));
    assert!(detect_wayland("", "wayland-0"));
    assert!(!detect_wayland("x11", "wayland-0"));
    assert!(!detect_wayland("x11", ""));
    assert!(!detect_wayland("", ""));
    assert!(!detect_wayland("tty", ""));
}

#[test]
fn restart_applies_to_the_daemon_and_to_opening_windows() {
    assert!(opt(Action::Daemon, true, false, false).should_restart());
    assert!(!opt(Action::Daemon, false, false, false).should_restart());
    assert!(opt(Action::WithServer(open_window()), true, false, false).should_restart());
    assert!(!opt(Action::WithServer(ActionWithServer::Reload), true, false, false).should_restart());
    assert!(!opt(Action::ClientOnly(ActionClientOnly::Logs), true, false, false).should_restart());
}

#[test]
fn opening_a_window_starts_a_missing_daemon() {
    let o = opt(Action::WithServer(open_window()), false, true, false);
    let actions = run(
        &o,
        vec![
            RunEvent::Start,
            RunEvent::Reply(Err("Failed to connect to daemon".to_string())),
            RunEvent::Forked { is_parent: true },
            RunEvent::Done,
            RunEvent::Done,
        ],
    );
    assert_eq!(
        actions,
        vec![
            RunAction::SendToDaemon { attempts: 5 },
            RunAction::StartDaemon { with_command: true, daemonize: true, print_hint: false },
            RunAction::ListenForResponse,
            RunAction::ShowLogs,
            RunAction::Finish,
        ]
    );
}

#[test]
fn without_daemonizing_a_missing_daemon_is_an_error() {
    let o = opt(Action::WithServer(open_window()), false, false, true);
    let actions = run(&o, vec![RunEvent::Start, RunEvent::Reply(Err("no daemon".to_string()))]);
    assert_eq!(actions, vec![RunAction::SendToDaemon { attempts: 5 }, RunAction::Fail("no daemon".to_string())]);
    let o = opt(Action::WithServer(ActionWithServer::Reload), false, false, false);
    let actions = run(&o, vec![RunEvent::Start, RunEvent::Reply(Err("no daemon".to_string()))]);
    assert_eq!(actions[1], RunAction::Fail("no daemon".to_string()));
}

#[test]
fn answers_are_printed() {
    let o = opt(Action::WithServer(ActionWithServer::ListWindows), false, false, false);
    let actions = run(
        &o,
        vec![RunEvent::Start, RunEvent::Reply(Ok(Some(DaemonResponse::Success("bar".to_string())))), RunEvent::Done],
    );
    assert_eq!(actions[1], RunAction::PrintSuccess("bar".to_string()));
    assert_eq!(actions[2], RunAction::Finish);
    let actions = run(&o, vec![RunEvent::Start, RunEvent::Reply(Ok(Some(DaemonResponse::Failure("no".to_string()))))]);
    assert_eq!(actions[1], RunAction::ExitWithFailure("no".to_string()));
}

#[test]
fn a_running_daemon_is_reported() {
    let o = opt(Action::Daemon, false, true, false);
    let actions = run(&o, vec![RunEvent::Start, RunEvent::DaemonRunning(true), RunEvent::Done, RunEvent::Done]);
    assert_eq!(
        actions,
        vec![RunAction::CheckDaemonRunning, RunAction::ReportRunning, RunAction::ShowLogs, RunAction::Finish]
    );
}

#[test]
fn restarting_the_daemon_stops_the_old_one_first() {
    let o = opt(Action::Daemon, true, false, false);
    let actions = run(
        &o,
        vec![
            RunEvent::Start,
            RunEvent::Reply(Ok(Some(DaemonResponse::Success(String::new())))),
            RunEvent::Done,
            RunEvent::Done,
            RunEvent::DaemonRunning(false),
            RunEvent::Forked { is_parent: false },
        ],
    );
    assert_eq!(
        actions,
        vec![
            RunAction::StopDaemon,
            RunAction::PrintSuccess(String::new()),
            RunAction::Pause,
            RunAction::CheckDaemonRunning,
            RunAction::StartDaemon { with_command: false, daemonize: true, print_hint: true },
            RunAction::Finish,
        ]
    );
}

#[test]
fn killing_never_starts_a_daemon() {
    let o = opt(Action::WithServer(ActionWithServer::KillServer), false, true, false);
    let actions = run(&o, vec![RunEvent::Start, RunEvent::Reply(Ok(None))]);
    assert_eq!(actions, vec![RunAction::SendToDaemon { attempts: 1 }, RunAction::Finish]);
    let actions = run(&o, vec![RunEvent::Start, RunEvent::Reply(Err("gone".to_string()))]);
    assert_eq!(actions[1], RunAction::Fail("gone".to_string()));
}

#[test]
fn client_only_actions_never_show_logs_twice() {
    let o = opt(Action::ClientOnly(ActionClientOnly::Logs), false, true, false);
    let actions = run(&o, vec![RunEvent::Start, RunEvent::Done]);
    assert_eq!(actions, vec![RunAction::RunClientOnly(ActionClientOnly::Logs), RunAction::Finish]);
    let stage = RunStage::Begin;
    assert!(!stage.accepts(&RunEvent::Done));
    assert!(!RunStage::Finished.accepts(&RunEvent::Start));
}
