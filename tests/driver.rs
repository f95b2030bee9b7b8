use elp::codemod::run_codemod;
use elp::codemod::CodemodError;
use elp::diagnostics::TextEdit;
use elp::diagnostics::TextRange;
use elp::forms::form_range_from_diff;
use elp::indent::change_indent;

/// A trivial-match fix: removes the first `X=X, ` found in the text.
fn trivial_match_fix(text: &Vec<char>) -> Result<Option<Vec<TextEdit>>, CodemodError> {
    let s: String = text.iter().collect();
    match s.find("X=X, ") {
        Some(byte) => {
            let start = s[..byte].chars().count() as u32;
            Ok(Some(vec![TextEdit {
                delete: TextRange { start, end: start + 5 },
                insert: String::new(),
            }]))
        }
        None => Ok(None),
    }
}

#[test]
fn recursive_fixes_converge() {
    let text: Vec<char> = "do()->X=42, X=X, X=X, bar(X), X.\n".chars().collect();
    let (out, iterations) = run_codemod(vec![text], trivial_match_fix, true).unwrap();
    let out: String = out[0].iter().collect();
    assert_eq!(out, "do()->X=42, bar(X), X.\n");
    assert!(iterations <= 10);
    assert_eq!(iterations, 3);
}

#[test]
fn one_pass_without_recursion() {
    let text: Vec<char> = "do()->X=42, X=X, X=X, bar(X), X.\n".chars().collect();
    let (out, iterations) = run_codemod(vec![text], trivial_match_fix, false).unwrap();
    let out: String = out[0].iter().collect();
    assert_eq!(out, "do()->X=42, X=X, bar(X), X.\n");
    assert_eq!(iterations, 1);
}

#[test]
fn empty_selection_changes_nothing() {
    let text: Vec<char> = "-module(m).\n".chars().collect();
    let (out, iterations) = run_codemod(vec![text.clone()], |_| Ok(None), true).unwrap();
    assert_eq!(out, vec![text]);
    assert_eq!(iterations, 1);
}

#[test]
fn second_run_is_a_fixed_point() {
    let text: Vec<char> = "do()->X=42, X=X, X=X, bar(X), X.\n".chars().collect();
    let (first, _) = run_codemod(vec![text], trivial_match_fix, true).unwrap();
    let (second, iterations) = run_codemod(first.clone(), trivial_match_fix, true).unwrap();
    assert_eq!(second, first);
    assert_eq!(iterations, 1);
}

#[test]
fn never_converging_fix_hits_the_limit() {
    let grow = |_: &Vec<char>| {
        Ok(Some(vec![TextEdit {
            delete: TextRange { start: 0, end: 0 },
            insert: "x".to_string(),
        }]))
    };
    let r = run_codemod(vec![vec![]], grow, true);
    assert!(matches!(r, Err(CodemodError::RecursionLimit)));
}

#[test]
fn missing_fix_is_fatal() {
    let r = run_codemod(vec![vec!['a']], |_| {
        Err(CodemodError::NoFixes { code: elp::code::DiagnosticCode::TrivialMatch })
    }, true);
    assert!(matches!(r, Err(CodemodError::NoFixes { .. })));
}

#[test]
fn overlapping_fix_is_skipped() {
    let bad = |_: &Vec<char>| {
        Ok(Some(vec![
            TextEdit { delete: TextRange { start: 0, end: 2 }, insert: String::new() },
            TextEdit { delete: TextRange { start: 1, end: 2 }, insert: String::new() },
        ]))
    };
    let (out, iterations) = run_codemod(vec![vec!['a', 'b', 'c']], bad, true).unwrap();
    assert_eq!(out, vec![vec!['a', 'b', 'c']]);
    assert_eq!(iterations, 1);
}

#[test]
fn change_range_covers_enclosing_form() {
    let text = "-module(m).\nfoo(X) ->\n    X.\nbar() -> ok.\n";
    assert_eq!(form_range_from_diff(text, 2), Some((1, 2)));
    assert_eq!(form_range_from_diff(text, 1), Some((1, 2)));
    assert_eq!(form_range_from_diff(text, 3), Some((3, 3)));
    assert_eq!(form_range_from_diff(text, 4), None);
}

#[test]
fn change_indent_adds_and_removes_spaces() {
    assert_eq!(change_indent(2, "foo\nbar".to_string()), "foo\n  bar");
    assert_eq!(change_indent(2, "foo\n\nbar  ".to_string()), "foo\n\n  bar");
    assert_eq!(change_indent(-2, "  a\n    b\nc".to_string()), "a\n  b\nc");
    assert_eq!(change_indent(3, "  x ".to_string()), "x ");
    assert_eq!(change_indent(1, "\nx".to_string()), "\n x");
}
