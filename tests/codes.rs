use elp::code::DiagnosticCode;
use elp::diagnostics::Diagnostic;
use elp::diagnostics::TextRange;
use elp::ignore::comment_contains_ignore_code;
use elp::service::is_implemented_in_elp;

#[test]
fn from_string_1() {
    let strings = vec!["W0008", "unreachable_test"];
    let codes = strings
        .iter()
        .map(|s| DiagnosticCode::maybe_from_string(&s.to_string()))
        .collect::<Vec<_>>();
    assert_eq!(
        format!("{:?}", codes),
        "[Some(UnreachableTest), Some(UnreachableTest)]"
    );
}

#[test]
fn from_string_2() {
    let strings = vec![
        DiagnosticCode::AdHoc("ad-hoc-title-1".to_string()).as_label(),
        DiagnosticCode::AdHoc("ad-hoc-title-2".to_string()).as_code(),
    ];
    let codes = strings
        .iter()
        .map(|s| DiagnosticCode::maybe_from_string(&s.to_string()))
        .collect::<Vec<_>>();
    assert_eq!(
        format!("{:?}", codes),
        "[Some(AdHoc(\"ad-hoc-title-1\")), Some(AdHoc(\"ad-hoc-title-2\"))]"
    );
}

#[test]
fn from_string_3() {
    let strings = vec!["C1000", "L1213"];
    let codes = strings
        .iter()
        .map(|s| DiagnosticCode::maybe_from_string(&s.to_string()))
        .collect::<Vec<_>>();
    assert_eq!(
        format!("{:?}", codes),
        "[Some(ErlangService(\"C1000\")), Some(ErlangService(\"L1213\"))]"
    );
}

#[test]
fn filter_diagnostics() {
    let diag1 = "head mismatch".to_string();
    let diag2 = "no module definition".to_string();
    let diagk = "another diagnostic".to_string();
    let diags = vec![diag1, diag2, diagk.clone()];
    assert_eq!(
        diags
            .into_iter()
            .filter(|d| is_implemented_in_elp(&d))
            .collect::<Vec<_>>(),
        vec![diagk]
    );
}

#[test]
fn code_and_label_round_trip() {
    let codes = vec![
        DiagnosticCode::DefaultCodeForEnumIter,
        DiagnosticCode::HeadMismatch,
        DiagnosticCode::MissingModule,
        DiagnosticCode::ModuleMismatch,
        DiagnosticCode::UnusedInclude,
        DiagnosticCode::BoundVarInPattern,
        DiagnosticCode::UnusedMacro,
        DiagnosticCode::UnusedRecordField,
        DiagnosticCode::MutableVarBug,
        DiagnosticCode::SyntaxError,
        DiagnosticCode::Missing,
        DiagnosticCode::StatementHasNoEffect,
        DiagnosticCode::TrivialMatch,
        DiagnosticCode::UnusedFunctionArg,
        DiagnosticCode::RedundantAssignment,
        DiagnosticCode::UnreachableTest,
        DiagnosticCode::ApplicationGetEnv,
        DiagnosticCode::MissingCompileWarnMissingSpec,
        DiagnosticCode::MisspelledAttribute,
        DiagnosticCode::CrossNodeEval,
        DiagnosticCode::ErlangService("L1230".to_string()),
        DiagnosticCode::ErlangService(String::new()),
        DiagnosticCode::AdHoc("my-lint".to_string()),
    ];
    for c in codes {
        assert_eq!(DiagnosticCode::from_str(&c.as_code()).unwrap(), c);
        assert_eq!(DiagnosticCode::from_str(&c.as_label()).unwrap(), c);
    }
}

#[test]
fn code_and_label_values() {
    assert_eq!(DiagnosticCode::TrivialMatch.as_code(), "W0007");
    assert_eq!(DiagnosticCode::TrivialMatch.as_label(), "trivial_match");
    assert_eq!(DiagnosticCode::RedundantAssignment.as_code(), "W0009");
    assert_eq!(DiagnosticCode::UnusedRecordField.as_label(), "unused_record_field");
    assert_eq!(
        DiagnosticCode::MissingCompileWarnMissingSpec.as_label(),
        "compile-warn-missing-spec"
    );
    assert_eq!(DiagnosticCode::AdHoc("x".to_string()).as_code(), "ad-hoc: x");
    assert_eq!(DiagnosticCode::ErlangService("L1500".to_string()).as_code(), "L1500");
}

#[test]
fn missing_separator_code_reads_back() {
    let c = DiagnosticCode::Missing;
    assert_eq!(DiagnosticCode::from_str(&c.as_code()).unwrap(), c);
    assert_eq!(DiagnosticCode::from_str("missing_comma_or_parenthesis").unwrap(), c);
}

#[test]
fn unknown_codes_are_errors() {
    assert_eq!(
        DiagnosticCode::from_str("nonsense").unwrap_err(),
        "Unknown DiagnosticCode: 'nonsense'"
    );
    assert!(DiagnosticCode::from_str("L12").is_err());
    assert!(DiagnosticCode::from_str("l1234").is_err());
    assert!(DiagnosticCode::from_str("ad-hoc: two words").is_err());
    assert_eq!(
        DiagnosticCode::from_str("").unwrap(),
        DiagnosticCode::ErlangService(String::new())
    );
}

#[test]
fn ignore_comment_matches_code_or_label() {
    let code = DiagnosticCode::UnusedRecordField;
    assert!(comment_contains_ignore_code(
        "% elp:ignore W0003 (unused_record_field)",
        &code
    ));
    assert!(comment_contains_ignore_code("%% elp:ignore unused_record_field", &code));
    assert!(!comment_contains_ignore_code("% elp:ignore W0002", &code));
    assert!(!comment_contains_ignore_code("% W0003", &code));
    assert!(!comment_contains_ignore_code("W0003 % elp:ignore", &code));
    assert!(comment_contains_ignore_code("% elp:ignore W0001 W0003", &code));
}

#[test]
fn ignore_fix_inserts_comment_above() {
    let d = Diagnostic::new(
        DiagnosticCode::UnusedRecordField,
        "Unused record field (r.b)".to_string(),
        TextRange { start: 20, end: 21 },
    )
    .severity(elp::code::Severity::Warning)
    .with_ignore_fix();
    let fixes = d.fixes.unwrap();
    assert_eq!(fixes.len(), 1);
    assert_eq!(fixes[0].edits.len(), 1);
    assert_eq!(fixes[0].edits[0].delete, TextRange { start: 20, end: 20 });
    assert_eq!(
        fixes[0].edits[0].insert,
        "% elp:ignore W0003 (unused_record_field)\n"
    );
}
