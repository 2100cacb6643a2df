use eww::commands::DaemonCommand;
use eww::coords::Coords;
use eww::daemon_response::DaemonResponse;
use eww::monitor::MonitorIdentifier;
use eww::names::VarName;
use eww::opts::{
    parse_var_update_arg, parse_window_config_and_id, parse_window_id_args, ActionClientOnly, ActionWithServer, OptsError,
};

#[test]
fn window_config_and_id() {
    let (name, id) = parse_window_config_and_id("bar:main").unwrap();
    assert_eq!((name.as_str(), id.as_str()), ("bar", "main"));
    let (name, id) = parse_window_config_and_id("bar").unwrap();
    assert_eq!((name.as_str(), id.as_str()), ("bar", "bar"));
    let (name, id) = parse_window_config_and_id("a:b:c").unwrap();
    assert_eq!((name.as_str(), id.as_str()), ("a", "b:c"));
}

#[test]
fn var_update_args() {
    let (name, value) = parse_var_update_arg("foo=\"bar=baz\"").unwrap();
    assert_eq!(name.0, "foo");
    assert_eq!(value, "\"bar=baz\"");
    assert_eq!(parse_var_update_arg("foo").unwrap_err(), OptsError::MissingEquals("foo".to_string()));
}

#[test]
fn window_id_args() {
    let (id, name, value) = parse_window_id_args("main:foo=1").unwrap();
    assert_eq!((id.as_str(), name.0.as_str(), value.as_str()), ("main", "foo", "1"));
    let (id, name, value) = parse_window_id_args("foo=a:b").unwrap();
    assert_eq!((id.as_str(), name.0.as_str(), value.as_str()), ("", "foo", "a:b"));
    assert!(parse_window_id_args("main:foo").is_err());
    assert_eq!(ActionClientOnly::Logs, ActionClientOnly::Logs);
}

#[test]
fn only_opening_windows_starts_the_daemon() {
    assert!(ActionWithServer::OpenWindow {
        window_name: "bar".to_string(),
        id: None,
        screen: None,
        pos: None,
        size: None,
        anchor: None,
        should_toggle: false,
        duration: None,
        args: None,
    }
    .can_start_daemon());
    assert!(ActionWithServer::OpenMany { windows: vec![], args: vec![], should_toggle: false }.can_start_daemon());
    assert!(!ActionWithServer::Ping.can_start_daemon());
    assert!(!ActionWithServer::CloseAll.can_start_daemon());
    assert!(!ActionWithServer::Reload.can_start_daemon());
}

#[test]
fn ping_is_answered_at_once() {
    let (command, recv) = ActionWithServer::Ping.into_daemon_command();
    assert!(matches!(command, DaemonCommand::NoOp));
    let mut recv = recv.unwrap();
    assert_eq!(recv.try_recv().unwrap(), DaemonResponse::Success("pong".to_string()));
}

#[test]
fn actions_become_daemon_commands() {
    let (command, recv) = ActionWithServer::Update { mappings: vec![(VarName("x".to_string()), "1".to_string())] }
        .into_daemon_command();
    assert!(recv.is_none());
    match command {
        DaemonCommand::UpdateVars(m) => assert_eq!(m, vec![(VarName("x".to_string()), "1".to_string())]),
        other => panic!("unexpected {:?}", other),
    }
    let (command, recv) = ActionWithServer::CloseWindows { windows: vec!["bar".to_string()] }.into_daemon_command();
    assert!(recv.is_some());
    match command {
        DaemonCommand::CloseWindows { windows, auto_reopen, .. } => {
            assert_eq!(windows, vec!["bar".to_string()]);
            assert!(!auto_reopen);
        }
        other => panic!("unexpected {:?}", other),
    }
    let (command, recv) = ActionWithServer::OpenWindow {
        window_name: "bar".to_string(),
        id: Some("main".to_string()),
        screen: Some(MonitorIdentifier::Numeric(1)),
        pos: Some(Coords::from_pixels(1, 2)),
        size: None,
        anchor: Some("top left".to_string()),
        should_toggle: true,
        duration: Some("2s".to_string()),
        args: None,
    }
    .into_daemon_command();
    assert!(recv.is_some());
    match command {
        DaemonCommand::OpenWindow { window_name, instance_id, screen, pos, anchor, should_toggle, duration, .. } => {
            assert_eq!(window_name, "bar");
            assert_eq!(instance_id.as_deref(), Some("main"));
            assert_eq!(screen, Some(MonitorIdentifier::Numeric(1)));
            assert_eq!(pos, Some(Coords::from_pixels(1, 2)));
            assert_eq!(anchor.as_deref(), Some("top left"));
            assert!(should_toggle);
            assert_eq!(duration.as_deref(), Some("2s"));
        }
        other => panic!("unexpected {:?}", other),
    }
    let (command, recv) = ActionWithServer::GetVar { name: "x".to_string() }.into_daemon_command();
    assert!(recv.is_some());
    assert!(matches!(command, DaemonCommand::GetVar { name, .. } if name == "x"));
}
