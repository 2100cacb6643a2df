use eww::command_handler::{close_all, close_windows, finish_open_window, handle_command, open_many_step, CommandOutcome, OpenManyStep};
use eww::coords::Coords;
use eww::window_arguments::WindowArgsError;
use eww::commands::DaemonCommand;
use eww::daemon_response::{create_pair, DaemonResponse};
use eww::names::{NameMap, VarName};
use eww::state::scope::Listener;
use eww::state::scope_graph::{ScopeGraph, ScopeIndex};
use eww::window_registry::WindowRegistry;

fn graph_with(globals: &[(&str, &str)]) -> ScopeGraph<()> {
    let mut vars = NameMap::new();
    for (name, value) in globals {
        vars.insert(VarName(name.to_string()), value.to_string());
    }
    let (send, _recv) = tokio::sync::mpsc::unbounded_channel();
    ScopeGraph::from_global_vars(vars, send)
}

fn open_command(name: &str, id: Option<&str>, toggle: bool) -> DaemonCommand {
    let (sender, _recv) = create_pair();
    DaemonCommand::OpenWindow {
        window_name: name.to_string(),
        instance_id: id.map(|s| s.to_string()),
        pos: None,
        size: None,
        anchor: None,
        screen: None,
        should_toggle: toggle,
        duration: Some("2s".to_string()),
        sender,
        args: Some(vec![(VarName("a".into()), "1".into()), (VarName("a".into()), "2".into())]),
    }
}

fn open(reg: &mut WindowRegistry, name: &str, id: Option<&str>, scope: u32) {
    match handle_command(reg, &graph_with(&[]), open_command(name, id, false)) {
        CommandOutcome::Open { instance_id, .. } => {
            assert!(finish_open_window(reg, &instance_id, Ok(ScopeIndex(scope))).is_ok());
        }
        other => panic!("unexpected {:?}", other),
    }
}

#[test]
fn opening_a_window_keeps_its_arguments() {
    let mut reg = WindowRegistry::new();
    match handle_command(&mut reg, &graph_with(&[]), open_command("bar", None, false)) {
        CommandOutcome::Open { instance_id, previous, duration, .. } => {
            assert_eq!(instance_id, "bar");
            assert_eq!(previous, None);
            assert_eq!(duration.as_deref(), Some("2s"));
        }
        other => panic!("unexpected {:?}", other),
    }
    let args = reg.arguments("bar").unwrap();
    assert_eq!(args.window_name, "bar");
    assert_eq!(args.args.get(&VarName("a".into())), Some(&"2".to_string()));
}

#[test]
fn toggling_an_open_window_closes_it_and_answers_success() {
    let mut reg = WindowRegistry::new();
    open(&mut reg, "bar", Some("main"), 4);
    match handle_command(&mut reg, &graph_with(&[]), open_command("bar", Some("main"), true)) {
        CommandOutcome::Closed { closed, reopen, reply } => {
            assert_eq!(closed, vec![("main".to_string(), ScopeIndex(4))]);
            assert!(reopen.is_empty());
            assert_eq!(reply.unwrap().1, DaemonResponse::Success(String::new()));
        }
        other => panic!("unexpected {:?}", other),
    }
    assert!(!reg.is_open("main"));
    assert!(reg.arguments("main").is_none());
}

#[test]
fn a_failed_window_is_reported() {
    let mut reg = WindowRegistry::new();
    handle_command(&mut reg, &graph_with(&[]), open_command("bar", Some("x"), false));
    let err = finish_open_window(&mut reg, "x", Err("no such window".to_string())).unwrap_err();
    assert_eq!(err.message(), "failed to open window `x`");
    assert_eq!(err.cause, "no such window");
    assert_eq!(reg.reopen_ids(), vec!["x".to_string()]);
    assert!(!reg.is_open("x"));
}

#[test]
fn closing_windows_reports_those_not_open() {
    let mut reg = WindowRegistry::new();
    open(&mut reg, "bar", Some("a"), 1);
    let (sender, _recv) = create_pair();
    let outcome = handle_command(
        &mut reg,
        &graph_with(&[]),
        DaemonCommand::CloseWindows { windows: vec!["a".to_string(), "b".to_string()], auto_reopen: false, sender },
    );
    match outcome {
        CommandOutcome::Closed { closed, reopen, reply } => {
            assert_eq!(closed, vec![("a".to_string(), ScopeIndex(1))]);
            assert!(reopen.is_empty());
            assert_eq!(
                reply.unwrap().1,
                DaemonResponse::Failure("Tried to close window with id 'b', but no such window was open".to_string())
            );
        }
        other => panic!("unexpected {:?}", other),
    }
    open(&mut reg, "bar", Some("c"), 2);
    let (closed, reopen, errors) = close_windows(&mut reg, &vec!["c".to_string()], true);
    assert_eq!(closed, vec![("c".to_string(), ScopeIndex(2))]);
    assert_eq!(reopen, vec!["c".to_string()]);
    assert!(errors.is_empty());
    assert_eq!(reg.reopen_ids(), vec!["c".to_string()]);
}

#[test]
fn close_all_and_kill() {
    let mut reg = WindowRegistry::new();
    open(&mut reg, "bar", Some("a"), 1);
    open(&mut reg, "bar", Some("b"), 2);
    let mut closed = close_all(&mut reg);
    closed.sort_by_key(|c| c.1 .0);
    assert_eq!(closed, vec![("a".to_string(), ScopeIndex(1)), ("b".to_string(), ScopeIndex(2))]);
    assert!(reg.open_ids().is_empty());
    open(&mut reg, "bar", Some("c"), 3);
    match handle_command(&mut reg, &graph_with(&[]), DaemonCommand::KillServer) {
        CommandOutcome::Stop { ids } => assert_eq!(ids, vec!["c".to_string()]),
        other => panic!("unexpected {:?}", other),
    }
    let (sender, _recv) = create_pair();
    match handle_command(&mut reg, &graph_with(&[]), DaemonCommand::ListActiveWindows(sender)) {
        CommandOutcome::Closed { reply, .. } => assert_eq!(reply.unwrap().1, DaemonResponse::Success(String::new())),
        other => panic!("unexpected {:?}", other),
    }
    assert!(matches!(handle_command(&mut reg, &graph_with(&[]), DaemonCommand::NoOp), CommandOutcome::Forward(DaemonCommand::NoOp)));
}

#[test]
fn active_windows_lists_each_open_window() {
    let mut reg = WindowRegistry::new();
    open(&mut reg, "bar", Some("a"), 1);
    let (sender, _recv) = create_pair();
    match handle_command(&mut reg, &graph_with(&[]), DaemonCommand::ListActiveWindows(sender)) {
        CommandOutcome::Closed { closed, reopen, reply } => {
            assert!(closed.is_empty() && reopen.is_empty());
            assert_eq!(reply.unwrap().1, DaemonResponse::Success("a: bar".to_string()));
        }
        other => panic!("unexpected {:?}", other),
    }
    open(&mut reg, "dock", Some("b"), 2);
    let (sender, _recv) = create_pair();
    match handle_command(&mut reg, &graph_with(&[]), DaemonCommand::ListActiveWindows(sender)) {
        CommandOutcome::Closed { reply, .. } => {
            let text = match reply.unwrap().1 {
                DaemonResponse::Success(t) => t,
                other => panic!("unexpected {:?}", other),
            };
            let mut lines: Vec<&str> = text.split('\n').collect();
            lines.sort();
            assert_eq!(lines, vec!["a: bar", "b: dock"]);
        }
        other => panic!("unexpected {:?}", other),
    }
}

#[test]
fn state_prints_all_or_the_used_globals() {
    let mut reg = WindowRegistry::new();
    let mut graph = graph_with(&[("a", "1"), ("b", "2")]);
    let (sender, _recv) = create_pair();
    match handle_command(&mut reg, &graph, DaemonCommand::PrintState { all: true, sender }) {
        CommandOutcome::Closed { reply, .. } => assert_eq!(reply.unwrap().1, DaemonResponse::Success("a: 1\nb: 2".to_string())),
        other => panic!("unexpected {:?}", other),
    }
    let (sender, _recv) = create_pair();
    match handle_command(&mut reg, &graph, DaemonCommand::PrintState { all: false, sender }) {
        CommandOutcome::Closed { reply, .. } => assert_eq!(reply.unwrap().1, DaemonResponse::Success(String::new())),
        other => panic!("unexpected {:?}", other),
    }
    let root = graph.root_index;
    graph.register_listener(root, Listener { needed_variables: vec![VarName("b".into())], id: 1 }).unwrap();
    let (sender, _recv) = create_pair();
    match handle_command(&mut reg, &graph, DaemonCommand::PrintState { all: false, sender }) {
        CommandOutcome::Closed { reply, .. } => assert_eq!(reply.unwrap().1, DaemonResponse::Success("b: 2".to_string())),
        other => panic!("unexpected {:?}", other),
    }
    let mut vars = NameMap::new();
    vars.insert(VarName("b".into()), "3".to_string());
    graph.clear(vars);
    let (sender, _recv) = create_pair();
    match handle_command(&mut reg, &graph, DaemonCommand::PrintState { all: false, sender }) {
        CommandOutcome::Closed { reply, .. } => assert_eq!(reply.unwrap().1, DaemonResponse::Success(String::new())),
        other => panic!("unexpected {:?}", other),
    }
}

#[test]
fn get_var_answers_the_value_or_a_failure() {
    let mut reg = WindowRegistry::new();
    let graph = graph_with(&[("a", "1")]);
    let (sender, _recv) = create_pair();
    match handle_command(&mut reg, &graph, DaemonCommand::GetVar { name: "a".to_string(), sender }) {
        CommandOutcome::Closed { reply, .. } => assert_eq!(reply.unwrap().1, DaemonResponse::Success("1".to_string())),
        other => panic!("unexpected {:?}", other),
    }
    let (sender, _recv) = create_pair();
    match handle_command(&mut reg, &graph, DaemonCommand::GetVar { name: "c".to_string(), sender }) {
        CommandOutcome::Closed { reply, .. } => {
            assert_eq!(reply.unwrap().1, DaemonResponse::Failure("Variable not found \"c\"".to_string()))
        }
        other => panic!("unexpected {:?}", other),
    }
}

fn many_args() -> Vec<(String, VarName, String)> {
    vec![
        (String::new(), VarName("a".into()), "1".to_string()),
        ("w".to_string(), VarName("pos".into()), "10x20".to_string()),
        ("other".to_string(), VarName("b".into()), "2".to_string()),
        ("w".to_string(), VarName("a".into()), "3".to_string()),
        ("w".to_string(), VarName("duration".into()), "5s".to_string()),
    ]
}

#[test]
fn opening_many_windows_goes_window_by_window() {
    let mut reg = WindowRegistry::new();
    match open_many_step(&mut reg, "bar", "w", &many_args(), true) {
        OpenManyStep::Open { instance_id, previous, anchor, duration } => {
            assert_eq!(instance_id, "w");
            assert_eq!(previous, None);
            assert_eq!(anchor, None);
            assert_eq!(duration.as_deref(), Some("5s"));
        }
        other => panic!("unexpected {:?}", other),
    }
    let kept = reg.arguments("w").unwrap();
    assert_eq!(kept.window_name, "bar");
    assert_eq!(kept.pos, Some(Coords::from_pixels(10, 20)));
    assert_eq!(kept.args.get(&VarName("a".into())), Some(&"3".to_string()));
    assert_eq!(kept.args.get(&VarName("b".into())), None);
    assert!(finish_open_window(&mut reg, "w", Ok(ScopeIndex(5))).is_ok());
    match open_many_step(&mut reg, "bar", "w", &many_args(), true) {
        OpenManyStep::Closed { instance_id, scope } => {
            assert_eq!(instance_id, "w");
            assert_eq!(scope, ScopeIndex(5));
        }
        other => panic!("unexpected {:?}", other),
    }
    assert!(!reg.is_open("w"));
    let bad = vec![(String::new(), VarName("pos".into()), "left".to_string())];
    match open_many_step(&mut reg, "bar", "x", &bad, false) {
        OpenManyStep::Refused(WindowArgsError::InvalidCoords { name, .. }) => assert_eq!(name, "pos"),
        other => panic!("unexpected {:?}", other),
    }
    assert!(reg.arguments("x").is_none());
}
