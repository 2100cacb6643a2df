use eww::widgets::replace_placeholders;

#[test]
fn test_replace_placeholders() {
    assert_eq!("foo", replace_placeholders("foo", &[""]),);
    assert_eq!("foo hi", replace_placeholders("foo {}", &["hi"]),);
    assert_eq!("foo hi", replace_placeholders("foo {}", &["hi", "ho"]),);
    assert_eq!("bar foo baz", replace_placeholders("{0} foo {1}", &["bar", "baz"]),);
    assert_eq!("baz foo bar", replace_placeholders("{1} foo {0}", &["bar", "baz"]),);
}

#[test]
fn replace_placeholders_without_arguments_keeps_the_command() {
    assert_eq!("echo {} {0}", replace_placeholders("echo {} {0}", &[]));
}

#[test]
fn replace_placeholders_replaces_every_occurrence() {
    assert_eq!("a a {2}", replace_placeholders("{} {0} {2}", &["a"]));
    assert_eq!("x10", replace_placeholders("{10}", &["0", "1", "2", "3", "4", "5", "6", "7", "8", "9", "x10"]));
}
