use elp::code::Severity;
use elp::diagnostics::Diagnostic;
use elp::diagnostics::DiagnosticsConfig;
use elp::diagnostics::diagnostics;
use elp::forms::form_kinds;
use elp::forms::form_missing_separator_diagnostics;
use elp::forms::split_forms;
use elp::forms::tokenize;
use elp::codemod::apply_edits;
use elp::codemod::choose_fix;
use elp::codemod::run_codemod;

/// Splits a fixture into its text and the diagnostics its `%% ^^^`
/// annotations expect, as (start, end, "severity: message").
fn parse_fixture(fixture: &str) -> (String, Vec<(u32, u32, String)>) {
    let mut text = String::new();
    let mut expected = Vec::new();
    let mut prev_line_start: usize = 0;
    for line in fixture.split_inclusive('\n') {
        let trimmed = line.trim_start();
        if trimmed.starts_with("%%") && trimmed.contains('^') {
            let chars: Vec<char> = line.chars().collect();
            let col = chars.iter().position(|c| *c == '^').unwrap();
            let width = chars[col..].iter().take_while(|c| **c == '^').count();
            let rest: String = chars[col + width..].iter().collect();
            let start = (prev_line_start + col) as u32;
            let rest = rest.trim();
            let rest = rest.strip_prefix("💡 ").unwrap_or(rest);
            expected.push((start, start + width as u32, rest.to_string()));
        } else {
            prev_line_start = text.chars().count();
            text.push_str(line);
        }
    }
    (text, expected)
}

fn severity_name(s: Severity) -> &'static str {
    match s {
        Severity::Error => "error",
        Severity::Warning => "warning",
        Severity::WeakWarning => "weak",
    }
}

/// Applies the first fix of the diagnostic at the `~` marker of `before`
/// and compares the result with `after`.
fn check_fix(before: &str, after: &str) {
    let cursor = before.chars().position(|c| c == '~').unwrap() as u32;
    let text: String = before.chars().filter(|c| *c != '~').collect();
    let diags = diagnostics(&text, true, &DiagnosticsConfig::default());
    let d = diags
        .iter()
        .find(|d| d.range.start <= cursor && cursor <= d.range.end && d.fixes.is_some())
        .expect("a diagnostic with a fix at the cursor");
    let fix = &d.fixes.as_ref().unwrap()[0];
    let chars: Vec<char> = text.chars().collect();
    let out: String = apply_edits(&chars, &fix.edits).into_iter().collect();
    assert_eq!(out, after);
}

/// Splits a fixture into files at `//- /path` lines; a fixture without
/// them is the single file `/main.erl`.
fn fixture_files(fixture: &str) -> Vec<(String, String)> {
    let mut files: Vec<(String, String)> = Vec::new();
    for line in fixture.split_inclusive('\n') {
        let trimmed = line.trim();
        if let Some(path) = trimmed.strip_prefix("//- ") {
            files.push((path.trim().to_string(), String::new()));
        } else if let Some((_, text)) = files.last_mut() {
            text.push_str(line);
        } else {
            files.push(("/main.erl".to_string(), line.to_string()));
        }
    }
    files
}

fn check_diagnostics(fixture: &str) {
    for (path, text) in fixture_files(fixture) {
        check_file_diagnostics(&text, path.ends_with(".erl"));
    }
}

fn check_file_diagnostics(fixture: &str, is_module: bool) {
    let (text, mut expected) = parse_fixture(fixture);
    let config = DiagnosticsConfig::default();
    let diags = diagnostics(&text, is_module, &config);
    let mut actual: Vec<(u32, u32, String)> = diags
        .iter()
        .map(|d| {
            (
                d.range.start,
                d.range.end,
                format!("{}: {}", severity_name(d.severity), d.message),
            )
        })
        .collect();
    expected.sort();
    actual.sort();
    assert_eq!(actual, expected, "text: {:?}", text);
}

fn separator_diagnostics(text: &str) -> Vec<Diagnostic> {
    let chars: Vec<char> = text.chars().collect();
    let toks = tokenize(&chars);
    let forms = split_forms(&toks);
    let kinds = form_kinds(&chars, &toks, &forms);
    form_missing_separator_diagnostics(&chars, &toks, &forms, &kinds)
}

#[test]
fn fun_decl_missing_semi_no_warning() {
    let text = "foo(2)->3.";
    let d = separator_diagnostics(text);
    assert_eq!(format!("{:?}", d), "[]")
}

#[test]
fn fun_decl_missing_semi_no_warning_2() {
    let text = "foo(1)->2;\nfoo(2)->3.";
    let d = separator_diagnostics(text);
    assert_eq!(format!("{:?}", d), "[]")
}

#[test]
fn fun_decl_missing_semi() {
    check_diagnostics(
        r#"
   -module(main).
   foo(1)->2
%% ^^^^^^^^^ warning: Missing ';'
   foo(2)->3.
"#,
    );
}

#[test]
fn export_attribute_missing_comma() {
    check_diagnostics(
        r#"
-module(main).
-export([foo/0 bar/1]).
    %%   ^^^^^ warning: Missing ','
"#,
    );
}

#[test]
fn export_type_attribute_missing_comma() {
    check_diagnostics(
        r#"
-module(main).
-export_type([foo/0 bar/1]).
         %%   ^^^^^ warning: Missing ','
"#,
    );
}

#[test]
fn import_attribute_missing_comma() {
    check_diagnostics(
        r#"
-module(main).
-import(bb, [foo/0 bar/1]).
         %%  ^^^^^ warning: Missing ','
"#,
    );
}

#[test]
fn type_decl_missing_comma() {
    check_diagnostics(
        r#"
-module(main).
-type foo(A B) :: [A,B].
       %% ^ warning: Missing ','
"#,
    );
}

#[test]
fn record_decl_missing_comma() {
    check_diagnostics(
        r#"
-module(main).
-record(foo  {f1, f2 = 3}).
     %% ^^^ warning: Missing ','
main(X) ->
  {X#foo.f1, X#foo.f2}.
"#,
    );
}

#[test]
fn record_decl_no_warning() {
    check_diagnostics(
        r#"
-module(main).
-define(NAME, name).
-record(?NAME, {}).
"#,
    )
}

#[test]
fn fun_decl_module_decl_ok() {
    check_diagnostics(
        r#"
-file("main.erl",1).
-define(baz,4).
-module(main).
foo(2)->?baz.
"#,
    );
}

#[test]
fn fun_decl_module_decl_missing() {
    check_diagnostics(
        r#"
  -file("foo.erl",1).
  -define(baz,4).
  foo(2)->?baz.
%%^^^^^^^^^^^^^ error: no module definition
"#,
    );
}

#[test]
fn fun_decl_module_decl_missing_2() {
    check_diagnostics(
        r#"
  baz(1)->4.
%%^^^^^^^^^^ error: no module definition
  foo(2)->3.
"#,
    );
}

#[test]
fn fun_decl_module_decl_after_preprocessor() {
    check_diagnostics(
        r#"
-ifndef(snmpm_net_if_mt).
-module(main).
-endif.
baz(1)->4.
"#,
    );
}

#[test]
fn missing_module_declaration_scenario() {
    let text = "foo(2)->3.\n";
    let diags = diagnostics(text, true, &DiagnosticsConfig::default());
    assert_eq!(diags.len(), 1);
    assert_eq!(diags[0].code.as_code(), "L1201");
    assert_eq!(diags[0].code.as_label(), "missing_module");
    assert!(matches!(diags[0].severity, Severity::Error));
    assert_eq!((diags[0].range.start, diags[0].range.end), (0, 10));
}

#[test]
fn head_mismatch_scenario() {
    let text = "-module(main).\nfoo(1)->2\nfoo(2)->3.\n";
    let diags = diagnostics(text, true, &DiagnosticsConfig::default());
    assert_eq!(diags.len(), 1);
    assert_eq!(diags[0].code.as_code(), "W0004");
    assert_eq!(diags[0].code.as_label(), "missing_comma_or_parenthesis");
    assert!(matches!(diags[0].severity, Severity::Warning));
    assert_eq!(diags[0].message, "Missing ';'");
    assert_eq!((diags[0].range.start, diags[0].range.end), (15, 24));
}

#[test]
fn header_file_has_no_module_diagnostic() {
    let text = "foo(2)->3.\n";
    let diags = diagnostics(text, false, &DiagnosticsConfig::default());
    assert!(diags.is_empty());
}

#[test]
fn ignore_comment_suppresses_by_code_or_label() {
    let text = "% elp:ignore L1201\nfoo(2)->3.\n";
    let diags = diagnostics(text, true, &DiagnosticsConfig::default());
    assert!(diags.is_empty());
    let text = "%% elp:ignore missing_module (no module)\nfoo(2)->3.\n";
    let diags = diagnostics(text, true, &DiagnosticsConfig::default());
    assert!(diags.is_empty());
    let text = "% elp:ignore W0003\nfoo(2)->3.\n";
    let diags = diagnostics(text, true, &DiagnosticsConfig::default());
    assert_eq!(diags.len(), 1);
    let text = "% elp:ignore L1201\n\nfoo(2)->3.\n";
    let diags = diagnostics(text, true, &DiagnosticsConfig::default());
    assert_eq!(diags.len(), 1);
}

#[test]
fn disabled_code_is_not_reported() {
    let config = DiagnosticsConfig::default().disable(elp::code::DiagnosticCode::MissingModule);
    let diags = diagnostics("foo(2)->3.\n", true, &config);
    assert!(diags.is_empty());
}

#[test]
fn test_unused_record_field() {
    check_diagnostics(
        r#"
-module(main).

-export([main/1]).

-record(used_field, {field_a, field_b = 42}).
-record(unused_field, {field_c, field_d}).
                             %% ^^^^^^^ warning: Unused record field (unused_field.field_d)

main(#used_field{field_a = A, field_b = B}) ->
    {A, B};
main(R) ->
    R#unused_field.field_c.
            "#,
    );
}

#[test]
fn test_unused_record_field_not_applicable() {
    check_diagnostics(
        r#"
-module(main).
-record(used_field, {field_a, field_b = 42}).

main(#used_field{field_a = A} = X) ->
  {A, X#used_field.field_b}.
            "#,
    );
}

#[test]
fn test_unused_record_field_not_applicable_for_hrl_file() {
    check_diagnostics(
        r#"
//- /include/foo.hrl
-record(unused_record, {field_a, field_b}).
            "#,
    );
}

#[test]
fn test_unused_record_field_include() {
    check_diagnostics(
        r#"
//- /include/foo.hrl
-record(unused_record, {field_a, field_b}).
//- /src/foo.erl
-module(foo).
-include("foo.hrl").
main(#used_field{field_a = A}) ->
    {A, B}.
        "#,
    );
}

#[test]
fn test_unused_record_field_nested() {
    check_diagnostics(
        r#"
-module(main).
-record(a, {a1, a2}).
             %% ^^ warning: Unused record field (a.a2)
-record(b, {b1, b2}).
         %% ^^ warning: Unused record field (b.b1)
main(#a{a1 = #b{b2 = B2}} = A) ->
    {A, B2}.
        "#,
    );
}

#[test]
fn unused_record_field_scenario() {
    let text = "-module(main).\n-record(r,{a,b}).\nf(X) -> X#r.a.\n";
    let diags = diagnostics(text, true, &DiagnosticsConfig::default());
    assert_eq!(diags.len(), 1);
    assert_eq!(diags[0].code.as_code(), "W0003");
    assert_eq!(diags[0].message, "Unused record field (r.b)");
    assert_eq!((diags[0].range.start, diags[0].range.end), (28, 29));
}

#[test]
fn ignore_comment_suppresses_unused_record_field() {
    let text = "-module(main).\n-record(r,{a,\n% elp:ignore W0003 (unused_record_field)\nb}).\nf(X) -> X#r.a.\n";
    let diags = diagnostics(text, true, &DiagnosticsConfig::default());
    assert!(diags.is_empty(), "{:?}", diags);
}

#[test]
fn can_fix_lhs_is_var() {
    check_fix(
        r#"
            -module(main).

            do_foo() ->
              X = 42,
              ~Y = X,
              bar(Y),
              Y.
            "#,
        r#"
            -module(main).

            do_foo() ->
              X = 42,
              X = X,
              bar(X),
              X.
            "#,
    )
}

#[test]
fn produces_diagnostic_lhs_is_var() {
    check_diagnostics(
        r#"
            -module(main).

            do_foo() ->
                X = 42,
                Y = X,
            %%% ^^^^^ 💡 weak: assignment is redundant
                bar(Y),
                Z = Y,
            %%% ^^^^^ 💡 weak: assignment is redundant
                g(Z),
                case Y of
                  [A] -> C = A;
                  B -> C = B
                end,
                C.
            "#,
    )
}

#[test]
fn redundant_assignment_fix_scenario() {
    let text = "-module(main).\ndo()->X=42, Y=X, bar(Y), Y.\n";
    let diags = diagnostics(text, true, &DiagnosticsConfig::default());
    assert_eq!(diags.len(), 1);
    assert_eq!(diags[0].code.as_code(), "W0009");
    assert!(matches!(diags[0].severity, Severity::WeakWarning));
    assert_eq!((diags[0].range.start, diags[0].range.end), (27, 30));
    let chars: Vec<char> = text.chars().collect();
    let fix = &diags[0].fixes.as_ref().unwrap()[0];
    let out: String = apply_edits(&chars, &fix.edits).into_iter().collect();
    assert_eq!(out, "-module(main).\ndo()->X=42, X=X, bar(X), X.\n");
}

#[test]
fn stacked_redundant_assignments_converge() {
    let text: Vec<char> = "-module(main).\ndo()->X=42, Y=X, Z=Y, bar(Z), Z.\n".chars().collect();
    let fix_for = |t: &Vec<char>| {
        let s: String = t.iter().collect();
        choose_fix(diagnostics(&s, true, &DiagnosticsConfig::default()))
    };
    let (out, iterations) = run_codemod(vec![text], fix_for, true).unwrap();
    let out: String = out[0].iter().collect();
    assert_eq!(out, "-module(main).\ndo()->X=42, bar(X), X.\n");
    assert_eq!(iterations, 5);
    let (again, n) = run_codemod(vec![out.chars().collect()], fix_for, true).unwrap();
    assert_eq!(again[0].iter().collect::<String>(), out);
    assert_eq!(n, 1);
}

#[test]
fn trivial_match_of_bound_variable_is_removed() {
    let text = "-module(m).\nf(X) ->\n  X = X,\n  X.\n";
    let diags = diagnostics(text, true, &DiagnosticsConfig::default());
    assert_eq!(diags.len(), 1);
    assert_eq!(diags[0].code.as_code(), "W0007");
    assert_eq!(diags[0].message, "match is redundant");
    let chars: Vec<char> = text.chars().collect();
    let fix = &diags[0].fixes.as_ref().unwrap()[0];
    let out: String = apply_edits(&chars, &fix.edits).into_iter().collect();
    assert_eq!(out, "-module(m).\nf(X) ->\n  X.\n");
    let config = DiagnosticsConfig::new(true, vec![]);
    assert!(diagnostics(text, true, &config).is_empty());
}
