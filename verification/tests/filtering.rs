use minus::{filter_lines, render_lines, ForbiddenSet};

fn owned(items: &[&str]) -> Vec<String> {
    items.iter().map(|s| s.to_string()).collect()
}

fn forbid(items: &[&str]) -> ForbiddenSet {
    ForbiddenSet::from_args(&owned(items))
}

#[test]
fn forbidden_lines_are_removed() {
    let kept = filter_lines(&forbid(&["bar"]), &owned(&["foo", "bar", "baz"]));
    assert_eq!(kept, owned(&["foo", "baz"]));
}

#[test]
fn survivors_keep_their_order_and_multiplicity() {
    let lines = owned(&["d", "x", "c", "d", "y", "b", "x", "a", "d"]);
    let kept = filter_lines(&forbid(&["x", "y"]), &lines);
    assert_eq!(kept, owned(&["d", "c", "d", "b", "a", "d"]));
}

#[test]
fn every_occurrence_of_a_forbidden_line_is_removed() {
    let kept = filter_lines(&forbid(&["a"]), &owned(&["a", "b", "a", "a", "c", "a"]));
    assert_eq!(kept, owned(&["b", "c"]));
}

#[test]
fn case_and_padding_variants_pass() {
    let lines = owned(&["Foo", "foo ", " foo", "FOO", "foo", "foofoo", "fo"]);
    let kept = filter_lines(&forbid(&["foo"]), &lines);
    assert_eq!(kept, owned(&["Foo", "foo ", " foo", "FOO", "foofoo", "fo"]));
}

#[test]
fn empty_forbidden_set_keeps_every_line() {
    let lines = owned(&["x", "", "y", "x", " "]);
    let kept = filter_lines(&ForbiddenSet::new(), &lines);
    assert_eq!(kept, lines);
}

#[test]
fn no_lines_give_no_lines() {
    let kept = filter_lines(&forbid(&["foo"]), &[]);
    assert_eq!(kept, Vec::<String>::new());
}

#[test]
fn empty_line_can_be_forbidden() {
    let kept = filter_lines(&forbid(&[""]), &owned(&["", "a", "", "b"]));
    assert_eq!(kept, owned(&["a", "b"]));
}

#[test]
fn filtering_twice_changes_nothing() {
    let set = forbid(&["b", "d"]);
    let once = filter_lines(&set, &owned(&["a", "b", "c", "d", "b", "e"]));
    assert_eq!(once, owned(&["a", "c", "e"]));
    for line in &once {
        assert!(!set.contains(line));
    }
    let twice = filter_lines(&set, &once);
    assert_eq!(twice, once);
}

#[test]
fn duplicate_arguments_filter_alike() {
    let lines = owned(&["a", "b", "a", "c"]);
    let twice = filter_lines(&forbid(&["a", "a"]), &lines);
    let once = filter_lines(&forbid(&["a"]), &lines);
    assert_eq!(twice, once);
    assert_eq!(once, owned(&["b", "c"]));
}

#[test]
fn render_ends_each_line_with_a_newline() {
    assert_eq!(render_lines(&owned(&["foo", "baz"])), "foo\nbaz\n");
    assert_eq!(render_lines(&owned(&["", ""])), "\n\n");
    assert_eq!(render_lines(&owned(&["one"])), "one\n");
}

#[test]
fn render_of_no_lines_is_empty() {
    assert_eq!(render_lines(&[]), "");
}
