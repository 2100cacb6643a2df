use eww::coords::{Coords, NumWithUnit};
use eww::monitor::MonitorIdentifier;
use eww::names::{AttrName, NameMap, VarName};
use eww::window_arguments::{ExpectedArg, WindowArgsError, WindowArguments};

fn args(pairs: &[(&str, &str)]) -> NameMap<String> {
    let mut m = NameMap::new();
    for (k, v) in pairs {
        m.insert(VarName(k.to_string()), v.to_string());
    }
    m
}

fn expected(names: &[(&str, bool)]) -> Vec<ExpectedArg> {
    names.iter().map(|(n, optional)| ExpectedArg { name: AttrName(n.to_string()), optional: *optional }).collect()
}

#[test]
fn arguments_that_eww_reads() {
    let (w, anchor, duration) = WindowArguments::new_from_args(
        "main".to_string(),
        "bar".to_string(),
        args(&[("pos", "10x20"), ("screen", "1"), ("anchor", "top left"), ("duration", "2s"), ("title", "hi")]),
    )
    .unwrap();
    assert_eq!(w.window_name, "bar");
    assert_eq!(w.instance_id, "main");
    assert_eq!(w.pos, Some(Coords::from_pixels(10, 20)));
    assert_eq!(w.size, None);
    assert_eq!(w.monitor, Some(MonitorIdentifier::Numeric(1)));
    assert_eq!(anchor.as_deref(), Some("top left"));
    assert_eq!(duration.as_deref(), Some("2s"));
    assert_eq!(w.args.len(), 1);
    assert_eq!(w.args.get(&VarName("title".into())), Some(&"hi".to_string()));
}

#[test]
fn invalid_coordinates_are_refused() {
    let r = WindowArguments::new_from_args("i".into(), "w".into(), args(&[("size", "big")]));
    assert!(matches!(r, Err(WindowArgsError::InvalidCoords { name, .. }) if name == "size"));
    let r = WindowArguments::new_from_args("i".into(), "w".into(), args(&[("size", "big"), ("pos", "1")]));
    assert!(matches!(r, Err(WindowArgsError::InvalidCoords { name, .. }) if name == "pos"));
}

#[test]
fn local_window_variables() {
    let (w, _, _) = WindowArguments::new_from_args(
        "main".to_string(),
        "bar".to_string(),
        args(&[("screen", "HDMI-1"), ("title", "hi"), ("size", "1x1")]),
    )
    .unwrap();
    assert_eq!(w.size, Some(Coords { x: NumWithUnit::Pixels(1), y: NumWithUnit::Pixels(1) }));
    let vars = w.get_local_window_variables(&expected(&[("id", false), ("screen", false), ("title", false)])).unwrap();
    assert_eq!(vars.get(&VarName("id".into())), Some(&"main".to_string()));
    assert_eq!(vars.get(&VarName("screen".into())), Some(&"HDMI-1".to_string()));
    assert_eq!(vars.get(&VarName("title".into())), Some(&"hi".to_string()));

    let missing = w.get_local_window_variables(&expected(&[("id", false), ("other", true), ("needed", false)]));
    assert!(matches!(missing, Err(WindowArgsError::MissingArgument { name, instance_id }) if name.0 == "needed" && instance_id == "main"));

    let unexpected = w.get_local_window_variables(&expected(&[("id", false)]));
    match unexpected {
        Err(WindowArgsError::UnexpectedVariables { names, instance_id }) => {
            assert_eq!(instance_id, "main");
            let mut names: Vec<String> = names.into_iter().map(|n| n.0).collect();
            names.sort();
            assert_eq!(names, vec!["title".to_string()]);
        }
        other => panic!("unexpected result {:?}", other),
    }

    let optional_left_out =
        w.get_local_window_variables(&expected(&[("id", false), ("screen", false), ("title", false), ("extra", true)]));
    let vars = optional_left_out.unwrap();
    assert_eq!(vars.len(), 3);
    assert!(vars.get(&VarName("extra".into())).is_none());
}
