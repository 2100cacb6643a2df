use eww::names::{NameMap, VarName};
use eww::state::scope_graph::ScopeIndex;
use eww::window_arguments::WindowArguments;
use eww::window_registry::{WindowAction, WindowRegistry, WindowRegistryError};

fn window(name: &str, id: &str) -> WindowArguments {
    let mut args = NameMap::new();
    args.insert(VarName("title".to_string()), format!("{} as {}", name, id));
    WindowArguments {
        window_name: name.to_string(),
        instance_id: id.to_string(),
        args,
        monitor: None,
        pos: None,
        size: None,
    }
}

fn opened(reg: &mut WindowRegistry, name: &str, id: &str, scope: u32) {
    assert_eq!(reg.begin_open(window(name, id)), None);
    reg.finish_open(id, Some(ScopeIndex(scope)));
}

fn sorted(mut v: Vec<String>) -> Vec<String> {
    v.sort();
    v
}

#[test]
fn open_then_close_forgets_the_window() {
    let mut reg = WindowRegistry::new();
    assert!(!reg.is_open("bar"));
    opened(&mut reg, "bar", "bar", 3);
    assert!(reg.is_open("bar"));
    assert_eq!(reg.active_windows(), vec![("bar".to_string(), "bar".to_string())]);
    assert_eq!(reg.close("bar", false).unwrap(), ScopeIndex(3));
    assert!(!reg.is_open("bar"));
    assert!(reg.arguments("bar").is_none());
    assert!(reg.reopen_ids().is_empty());
}

#[test]
fn closing_a_window_that_is_not_open_is_an_error() {
    let mut reg = WindowRegistry::new();
    match reg.close("nope", false) {
        Err(WindowRegistryError::NotOpen { instance_id }) => assert_eq!(instance_id, "nope"),
        other => panic!("unexpected {:?}", other),
    }
    reg.begin_open(window("bar", "b1"));
    reg.finish_open("b1", None);
    assert!(matches!(reg.close("b1", true), Err(WindowRegistryError::NotOpen { .. })));
    assert!(matches!(reg.arguments("b1").map(|a| a.window_name.as_str()), Some("bar")));
}

#[test]
fn opening_an_open_instance_closes_it_first() {
    let mut reg = WindowRegistry::new();
    opened(&mut reg, "bar", "main", 5);
    assert_eq!(reg.begin_open(window("other", "main")), Some(ScopeIndex(5)));
    assert!(!reg.is_open("main"));
    assert_eq!(reg.arguments("main").unwrap().window_name, "other");
    reg.finish_open("main", Some(ScopeIndex(6)));
    assert_eq!(reg.active_windows(), vec![("main".to_string(), "other".to_string())]);
}

#[test]
fn a_window_that_fails_to_open_is_reopened_on_reload() {
    let mut reg = WindowRegistry::new();
    reg.begin_open(window("bar", "bar"));
    reg.finish_open("bar", None);
    assert!(!reg.is_open("bar"));
    assert_eq!(reg.reopen_ids(), vec!["bar".to_string()]);
    assert!(reg.active_windows().is_empty());
    assert_eq!(reg.begin_reopen("bar").unwrap(), None);
    reg.finish_open("bar", Some(ScopeIndex(1)));
    assert!(reg.is_open("bar"));
}

#[test]
fn auto_reopen_keeps_the_arguments() {
    let mut reg = WindowRegistry::new();
    opened(&mut reg, "bar", "left", 2);
    opened(&mut reg, "bar", "right", 4);
    assert_eq!(reg.close("left", true).unwrap(), ScopeIndex(2));
    assert!(!reg.is_open("left"));
    assert!(reg.is_open("right"));
    assert_eq!(sorted(reg.reopen_ids()), vec!["left".to_string(), "right".to_string()]);
    assert_eq!(reg.open_ids(), vec!["right".to_string()]);
    assert_eq!(reg.begin_reopen("left").unwrap(), None);
    let args = reg.arguments("left").unwrap();
    assert_eq!(args.window_name, "bar");
    assert_eq!(args.args.get(&VarName("title".to_string())).unwrap(), "bar as left");
}

#[test]
fn reopening_an_open_window_closes_it_first() {
    let mut reg = WindowRegistry::new();
    opened(&mut reg, "bar", "bar", 7);
    assert_eq!(reg.begin_reopen("bar").unwrap(), Some(ScopeIndex(7)));
    assert!(!reg.is_open("bar"));
    match reg.begin_reopen("gone") {
        Err(WindowRegistryError::MissingArguments { instance_id }) => assert_eq!(instance_id, "gone"),
        other => panic!("unexpected {:?}", other),
    }
}

#[test]
fn toggling_closes_only_open_windows() {
    let mut reg = WindowRegistry::new();
    assert_eq!(reg.action_for("bar", true), WindowAction::Open);
    opened(&mut reg, "bar", "bar", 1);
    assert_eq!(reg.action_for("bar", true), WindowAction::Close);
    assert_eq!(reg.action_for("bar", false), WindowAction::Open);
}

#[test]
fn stopping_closes_the_open_windows_and_keeps_the_rest() {
    let mut reg = WindowRegistry::new();
    opened(&mut reg, "bar", "a", 1);
    opened(&mut reg, "bar", "b", 2);
    reg.begin_open(window("bar", "c"));
    reg.finish_open("c", None);
    assert_eq!(sorted(reg.stop()), vec!["a".to_string(), "b".to_string()]);
    assert!(reg.open_ids().is_empty());
    assert!(reg.arguments("a").is_some());
    assert_eq!(reg.reopen_ids(), vec!["c".to_string()]);
    assert!(matches!(reg.close("a", false), Err(WindowRegistryError::NotOpen { .. })));
}
