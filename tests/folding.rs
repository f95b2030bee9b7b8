use elp::forms::folding_ranges;
use elp::forms::FoldKind;

/// Removes `<fold region>` ... `</fold>` tags, returning the text and the
/// tagged ranges.
fn extract_folds(fixture: &str) -> (String, Vec<(u32, u32)>) {
    let open = "<fold region>";
    let close = "</fold>";
    let mut text = String::new();
    let mut ranges = Vec::new();
    let mut starts = Vec::new();
    let mut rest = fixture;
    loop {
        let next_open = rest.find(open);
        let next_close = rest.find(close);
        let (idx, is_open) = match (next_open, next_close) {
            (Some(o), Some(c)) if o < c => (o, true),
            (_, Some(c)) => (c, false),
            (Some(o), None) => (o, true),
            (None, None) => break,
        };
        text.push_str(&rest[..idx]);
        let pos = text.chars().count() as u32;
        if is_open {
            starts.push(pos);
            rest = &rest[idx + open.len()..];
        } else {
            ranges.push((starts.pop().unwrap(), pos));
            rest = &rest[idx + close.len()..];
        }
    }
    text.push_str(rest);
    ranges.sort();
    (text, ranges)
}

fn check(fixture: &str) {
    let (text, ranges) = extract_folds(fixture.trim_start());
    let mut folds: Vec<(u32, u32)> = folding_ranges(&text)
        .iter()
        .map(|f| {
            assert!(matches!(
                f.kind,
                FoldKind::Function | FoldKind::Record | FoldKind::DocAttribute
            ));
            (f.range.start, f.range.end)
        })
        .collect();
    folds.sort();
    assert_eq!(folds, ranges);
}

#[test]
fn test_function() {
    check(
        r#"
-module(my_module).
<fold region>one() ->
  ok.</fold>
"#,
    )
}

#[test]
fn test_record() {
    check(
        r#"
-module(my_module).
<fold region>-record(my_record, {a :: integer(), b :: binary()}).</fold>
"#,
    )
}

#[test]
fn test_records_and_functions() {
    check(
        r#"
-module(my_module).

<fold region>-record(my_record, {a :: integer(),
                                 b :: binary()}).</fold>

<fold region>one() ->
  ok.</fold>

<fold region>two() ->
  ok,
  ok.</fold>
"#,
    );
}

#[test]
fn test_module_doc_attributes() {
    check(
        r#"
-module(my_module).
<fold region>-moduledoc """
This is a module doc
""".</fold>

-export([one/0]).

<fold region>one() -> 1.</fold>
"#,
    );
}

#[test]
fn test_doc_attributes() {
    check(
        r#"
-module(my_module).

-export([one/0]).

<fold region>-doc "
This is one function
".</fold>
<fold region>one() -> 1.</fold>
"#,
    );
}
