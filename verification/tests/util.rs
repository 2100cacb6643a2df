use eww::util::{env_var_references, is_blank, list_difference, replace_env_var_references, trim_lines, unindent};

#[test]
fn test_unindent() {
    let indented = "
            line one
            line two";
    assert_eq!("line one\nline two", unindent(indented));
}

#[test]
fn unindent_keeps_relative_indentation() {
    assert_eq!("a\n  b", unindent("\n\n    a\n      b"));
    assert_eq!("", unindent(""));
    assert_eq!("x", unindent("x"));
}

#[test]
fn trim_lines_trims_each_line() {
    assert_eq!("a\nb\nc", trim_lines("  a  \n\tb\r\n c"));
    assert_eq!("", trim_lines(""));
    assert_eq!("a\n", trim_lines("a\n \n"));
}

#[test]
fn is_blank_means_only_whitespace() {
    assert!(is_blank(""));
    assert!(is_blank(" \n\t \n"));
    assert!(!is_blank(" a "));
}

#[test]
fn list_difference_in_both_directions() {
    let a = vec![1, 2, 3, 4];
    let b = vec![3, 4, 5];
    let (missing, new) = list_difference(&a, &b);
    assert_eq!(missing, vec![&1, &2]);
    assert_eq!(new, vec![&5]);
}

#[test]
fn env_var_references_are_found_and_replaced() {
    let scss = "$test: ${USER};";
    let names = env_var_references(scss);
    assert_eq!(names, vec!["USER".to_string()]);
    assert_eq!(replace_env_var_references(scss, &vec!["me".to_string()]), "$test: me;");

    let text = "${A} and ${B}x ${ C} ${D";
    assert_eq!(env_var_references(text), vec!["A".to_string(), "B".to_string()]);
    assert_eq!(replace_env_var_references(text, &vec!["1".to_string(), String::new()]), "1 and x ${ C} ${D");

    let adjacent = "${a}${b} c";
    assert_eq!(env_var_references(adjacent), vec!["a".to_string(), "b".to_string()]);
    assert_eq!(replace_env_var_references(adjacent, &vec!["1".to_string(), "2".to_string()]), "12 c");
    assert_eq!(replace_env_var_references("a${FOO}b", &vec![String::new()]), "ab");
}
