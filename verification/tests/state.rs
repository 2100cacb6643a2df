use std::{
    cell::RefCell,
    collections::HashMap,
    rc::Rc,
    sync::{
        atomic::{AtomicBool, Ordering},
        Arc,
    },
};

use eww::names::{AttrName, NameMap, VarName};
use eww::state::scope::Listener;
use eww::state::scope_graph::{AttributeValue, ScopeGraph, ScopeGraphEvent, ScopeGraphError, ScopeIndex};
use eww::state::updates::{PendingUpdates, UpdateAction};

/// The expressions of these tests.
#[derive(Clone, Debug)]
enum Expr {
    VarRef(String),
    Literal(String),
    Concat(Vec<Expr>),
}

fn references(e: &Expr, out: &mut Vec<VarName>) {
    match e {
        Expr::VarRef(n) => out.push(VarName(n.clone())),
        Expr::Literal(_) => {}
        Expr::Concat(parts) => parts.iter().for_each(|p| references(p, out)),
    }
}

fn eval(e: &Expr, values: &NameMap<String>) -> String {
    match e {
        Expr::VarRef(n) => values.get(&VarName(n.clone())).unwrap().clone(),
        Expr::Literal(s) => s.clone(),
        Expr::Concat(parts) => parts.iter().map(|p| eval(p, values)).collect(),
    }
}

fn names(pairs: &[(&str, &str)]) -> NameMap<String> {
    let mut m = NameMap::new();
    for (k, v) in pairs {
        m.insert(VarName(k.to_string()), v.to_string());
    }
    m
}

/// Evaluates the attributes in the calling scope, then registers the scope.
fn new_scope(
    graph: &mut ScopeGraph<Expr>,
    name: &str,
    parent: Option<ScopeIndex>,
    calling: ScopeIndex,
    attrs: Vec<(&str, Expr)>,
) -> Result<ScopeIndex, ScopeGraphError> {
    let mut values = Vec::new();
    for (attr, expr) in attrs {
        let mut refs = Vec::new();
        references(&expr, &mut refs);
        let vals = graph.lookup_variables_in_scope(calling, &refs)?;
        let value = eval(&expr, &vals);
        values.push(AttributeValue { name: AttrName(attr.to_string()), expression: expr, references: refs, value });
    }
    graph.register_new_scope(name.to_string(), parent, calling, values)
}

type Callbacks = HashMap<u64, Box<dyn Fn(&NameMap<String>)>>;

fn run(graph: &mut ScopeGraph<Expr>, pending: &mut PendingUpdates<Expr>, callbacks: &Callbacks) {
    while !pending.is_empty() {
        match graph.step(pending).unwrap() {
            None => {}
            Some(UpdateAction::Evaluate { target, attr_name, expression, values }) => {
                let value = eval(&expression, &values);
                graph.update_value(pending, target, &attr_name.to_var_name(), value).unwrap();
            }
            Some(UpdateAction::CallListener { id, values }) => callbacks[&id](&values),
        }
    }
}

pub fn create_fn_verificator() -> (Arc<AtomicBool>, Box<dyn Fn()>) {
    let check = Arc::new(AtomicBool::new(false));
    let check_moved = check.clone();
    let f = Box::new(move || check_moved.store(true, Ordering::Relaxed));
    (check, f)
}

#[test]
pub fn test_test_delete_scope() {
    let globals = names(&[("global_1", "hi")]);

    let (send, _recv) = tokio::sync::mpsc::unbounded_channel();

    let mut scope_graph = ScopeGraph::from_global_vars(globals, send);
    let root = scope_graph.root_index;

    let widget_foo_scope =
        new_scope(&mut scope_graph, "foo", Some(root), root, vec![("arg_1", Expr::VarRef("global_1".into()))]).unwrap();
    let widget_bar_scope =
        new_scope(&mut scope_graph, "bar", Some(root), widget_foo_scope, vec![("arg_3", Expr::VarRef("arg_1".into()))])
            .unwrap();

    scope_graph.validate().unwrap();

    scope_graph.remove_scope(widget_bar_scope);
    scope_graph.validate().unwrap();
    assert!(scope_graph.scope_at(widget_bar_scope).is_none());
}

#[test]
fn test_state_updates() {
    let globals = names(&[("global_1", "hi"), ("global_2", "hey")]);

    let (send, _recv) = tokio::sync::mpsc::unbounded_channel();

    let mut scope_graph = ScopeGraph::from_global_vars(globals, send);
    let root = scope_graph.root_index;

    let widget_foo_scope = new_scope(
        &mut scope_graph,
        "foo",
        Some(root),
        root,
        vec![("arg_1", Expr::VarRef("global_1".into())), ("arg_2", Expr::Literal("static value".into()))],
    )
    .unwrap();
    let widget_bar_scope = new_scope(
        &mut scope_graph,
        "bar",
        Some(root),
        widget_foo_scope,
        vec![("arg_3", Expr::Concat(vec![Expr::VarRef("arg_1".into()), Expr::Literal("static_value".into())]))],
    )
    .unwrap();

    let mut callbacks: Callbacks = HashMap::new();

    let (foo_verify, foo_f) = create_fn_verificator();
    callbacks.insert(
        1,
        Box::new(move |values: &NameMap<String>| {
            let arg_1 = values.get(&VarName("arg_1".into())).unwrap();
            println!("foo: arg_1 changed to {}", arg_1);
            if arg_1 == "pog" {
                foo_f()
            }
        }),
    );
    let (bar_verify, bar_f) = create_fn_verificator();
    callbacks.insert(
        2,
        Box::new(move |values: &NameMap<String>| {
            let arg_3 = values.get(&VarName("arg_3".into())).unwrap();
            println!("bar: arg_3 changed to {}", arg_3);
            if arg_3 == "pogstatic_value" {
                bar_f()
            }
        }),
    );
    let (bar_2_verify, bar_2_f) = create_fn_verificator();
    callbacks.insert(
        3,
        Box::new(move |values: &NameMap<String>| {
            let global_2 = values.get(&VarName("global_2".into())).unwrap();
            println!("bar: global_2 changed to {}", global_2);
            if global_2 == "new global 2" {
                bar_2_f()
            }
        }),
    );

    for (scope, var, id) in [(widget_foo_scope, "arg_1", 1), (widget_bar_scope, "arg_3", 2), (widget_bar_scope, "global_2", 3)] {
        let values = scope_graph
            .register_listener(scope, Listener { needed_variables: vec![VarName(var.to_string())], id })
            .unwrap();
        callbacks[&id](&values);
    }

    let mut pending = PendingUpdates::new();
    scope_graph.update_value(&mut pending, root, &VarName("global_1".into()), "pog".into()).unwrap();
    run(&mut scope_graph, &mut pending, &callbacks);
    assert!(foo_verify.load(Ordering::Relaxed), "update in foo did not trigger properly");
    assert!(bar_verify.load(Ordering::Relaxed), "update in bar did not trigger properly");

    scope_graph.update_value(&mut pending, root, &VarName("global_2".into()), "new global 2".into()).unwrap();
    run(&mut scope_graph, &mut pending, &callbacks);
    assert!(bar_2_verify.load(Ordering::Relaxed), "inherited global update did not trigger properly");
}

#[test]
fn lookup_sees_the_closest_definition() {
    let (send, _recv) = tokio::sync::mpsc::unbounded_channel();
    let mut graph: ScopeGraph<Expr> = ScopeGraph::from_global_vars(names(&[("a", "global"), ("b", "1")]), send);
    let root = graph.root_index;
    let child = new_scope(&mut graph, "child", Some(root), root, vec![("a", Expr::Literal("local".into()))]).unwrap();
    assert_eq!(graph.lookup_variable_in_scope(child, &VarName("a".into())), Some(&"local".to_string()));
    assert_eq!(graph.lookup_variable_in_scope(child, &VarName("b".into())), Some(&"1".to_string()));
    assert_eq!(graph.find_scope_with_variable(child, &VarName("b".into())), Some(root));
    assert_eq!(graph.lookup_variable_in_scope(child, &VarName("c".into())), None);
    let found = graph.find_available_scope_where(child, |s| s.name == "global");
    assert_eq!(found, Some(root));
}

#[test]
fn a_write_is_read_back() {
    let (send, _recv) = tokio::sync::mpsc::unbounded_channel();
    let mut graph: ScopeGraph<Expr> = ScopeGraph::from_global_vars(names(&[("x", "1")]), send);
    let root = graph.root_index;
    let child = new_scope(&mut graph, "child", Some(root), root, vec![]).unwrap();
    let mut pending = PendingUpdates::new();
    graph.update_value(&mut pending, child, &VarName("x".into()), "2".into()).unwrap();
    assert_eq!(graph.lookup_variable_in_scope(root, &VarName("x".into())), Some(&"2".to_string()));
    assert_eq!(graph.lookup_variable_in_scope(child, &VarName("x".into())), Some(&"2".to_string()));
    assert!(matches!(
        graph.update_value(&mut pending, child, &VarName("nope".into()), "3".into()),
        Err(ScopeGraphError::VariableNotInScope(_))
    ));
}

#[test]
fn register_new_scope_refuses_unknown_variables() {
    let (send, _recv) = tokio::sync::mpsc::unbounded_channel();
    let mut graph: ScopeGraph<Expr> = ScopeGraph::from_global_vars(names(&[("x", "1")]), send);
    let root = graph.root_index;
    let attrs = vec![AttributeValue {
        name: AttrName("a".into()),
        expression: Expr::VarRef("missing".into()),
        references: vec![VarName("missing".into())],
        value: String::new(),
    }];
    let r = graph.register_new_scope("w".into(), Some(root), root, attrs);
    assert!(matches!(r, Err(ScopeGraphError::VariableNotInScope(VarName(n))) if n == "missing"));
    assert!(graph.scope_at(ScopeIndex(1)).is_none());
}

#[test]
fn removing_a_scope_removes_what_it_created() {
    let (send, _recv) = tokio::sync::mpsc::unbounded_channel();
    let mut graph: ScopeGraph<Expr> = ScopeGraph::from_global_vars(names(&[("x", "1")]), send);
    let root = graph.root_index;
    let a = new_scope(&mut graph, "a", Some(root), root, vec![]).unwrap();
    let b = new_scope(&mut graph, "b", Some(a), a, vec![]).unwrap();
    let c = new_scope(&mut graph, "c", Some(root), root, vec![]).unwrap();
    graph.handle_scope_graph_event(ScopeGraphEvent::RemoveScope(a));
    assert!(graph.scope_at(a).is_none());
    assert!(graph.scope_at(b).is_none());
    assert!(graph.scope_at(c).is_some());
    assert!(graph.validate().is_ok());
}

#[test]
fn used_and_unused_globals() {
    let (send, _recv) = tokio::sync::mpsc::unbounded_channel();
    let mut graph: ScopeGraph<Expr> = ScopeGraph::from_global_vars(names(&[("x", "1"), ("y", "2")]), send);
    let root = graph.root_index;
    let w = new_scope(&mut graph, "w", Some(root), root, vec![]).unwrap();
    let values = graph.register_listener(w, Listener { needed_variables: vec![VarName("x".into())], id: 7 }).unwrap();
    assert_eq!(values.get(&VarName("x".into())), Some(&"1".to_string()));
    let used = graph.currently_used_globals();
    assert!(used.contains_key(&VarName("x".into())));
    assert!(!used.contains_key(&VarName("y".into())));
    let unused = graph.currently_unused_globals();
    assert!(unused.contains_key(&VarName("y".into())));
    assert!(!unused.contains_key(&VarName("x".into())));
    assert_eq!(unused.len(), 1);
}

#[test]
fn listeners_are_called_once_per_needed_occurrence() {
    let (send, _recv) = tokio::sync::mpsc::unbounded_channel();
    let mut graph: ScopeGraph<Expr> = ScopeGraph::from_global_vars(names(&[("x", "1")]), send);
    let root = graph.root_index;
    graph.register_listener(root, Listener { needed_variables: vec![VarName("x".into()), VarName("x".into())], id: 1 }).unwrap();
    let calls = Rc::new(RefCell::new(0));
    let counter = calls.clone();
    let mut callbacks: Callbacks = HashMap::new();
    callbacks.insert(1, Box::new(move |_| *counter.borrow_mut() += 1));
    let mut pending = PendingUpdates::new();
    graph.update_global_value(&mut pending, &VarName("x".into()), "2".into()).unwrap();
    run(&mut graph, &mut pending, &callbacks);
    assert_eq!(*calls.borrow(), 2);
}
