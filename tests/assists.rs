use elp::assists::add_impl;
use elp::codemod::apply_edits;

/// The text after applying the `add_impl` assist at the `~` marker.
fn assist_result(fixture: &str, snippets: bool) -> Option<String> {
    let cursor = fixture.chars().position(|c| c == '~').unwrap() as u32;
    let text: String = fixture.chars().filter(|c| *c != '~').collect();
    let assist = add_impl(&text, cursor, snippets)?;
    assert_eq!(assist.label, "Add implementation");
    let chars: Vec<char> = text.chars().collect();
    Some(apply_edits(&chars, &assist.edits).into_iter().collect())
}

fn check_assist_not_applicable(fixture: &str) {
    assert!(assist_result(fixture, true).is_none());
}

#[test]
fn test_base_case() {
    let out = assist_result(
        r#"
-spec ~foo(Foo :: term(), some_atom) -> ok.
"#,
        true,
    )
    .unwrap();
    assert_eq!(
        out.trim_start(),
        "-spec foo(Foo :: term(), some_atom) -> ok.\nfoo(${1:Foo}, ${2:Arg2}) ->\n  ${3:error(\"not implemented\").}\n\n"
    );
}

#[test]
fn test_previous_has_impl() {
    let out = assist_result(
        r#"
-spec bar() -> ok.
bar() -> ok.
-spec ~foo() -> return_type().
"#,
        true,
    )
    .unwrap();
    assert_eq!(
        out.trim_start(),
        "-spec bar() -> ok.\nbar() -> ok.\n-spec foo() -> return_type().\nfoo() ->\n  ${1:error(\"not implemented\").}\n\n"
    );
}

#[test]
fn test_already_has_impl_above() {
    check_assist_not_applicable(
        r#"
foo(Foo, some_atom) -> ok.
-spec ~foo(x(), y()) -> ok.
    "#,
    );
}

#[test]
fn test_already_has_impl_below() {
    check_assist_not_applicable(
        r#"
-spec ~foo(x(), y()) -> ok.
foo(Foo, some_atom) -> ok.
    "#,
    );
}

#[test]
fn plain_stub_without_snippets() {
    let out = assist_result("-spec ~f(A, b()) -> ok.\n", false).unwrap();
    assert_eq!(out, "-spec f(A, b()) -> ok.\nf(A, Arg2) ->\n  error(\"not implemented\").\n\n");
}

#[test]
fn other_arity_does_not_count_as_implementation() {
    assert!(assist_result("f(X) -> X.\n-spec ~f() -> ok.\n", false).is_some());
    assert!(add_impl("f(X) -> X.\n", 1, false).is_none());
}
