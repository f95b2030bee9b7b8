use elp::code::DiagnosticCode;
use elp::code::Severity;
use elp::codemod::apply_edits;
use elp::codemod::check;
use elp::codemod::check_changes;
use elp::codemod::choose_fix;
use elp::codemod::run_codemod;
use elp::codemod::decide;
use elp::codemod::edits_valid;
use elp::codemod::line_number;
use elp::codemod::select_diagnostics;
use elp::codemod::CodemodError;
use elp::codemod::Decision;
use elp::diagnostics::filter_diagnostics;
use elp::diagnostics::Assist;
use elp::diagnostics::Diagnostic;
use elp::diagnostics::FileId;
use elp::diagnostics::TextEdit;
use elp::diagnostics::TextRange;
use elp::forms::declaration_name_range;
use elp::forms::FormKind;
use elp::service::narrow_range;
use elp::service::parse_error_to_diagnostic_info;
use elp::service::erlang_service_diagnostics;
use elp::service::service_diagnostics;
use elp::service::DiagnosticInfo;
use elp::service::group_by_file;
use elp::service::edoc_diagnostics;
use elp::service::offset_of_line;
use elp::service::EdocDiagnostic;
use elp::diagnostics::sort_diagnostics;
use elp::diagnostics::handle_res;
use elp::service::DiagnosticLocation;
use elp::service::Location;
use elp::service::ParseError;

fn range(start: u32, end: u32) -> TextRange {
    TextRange { start, end }
}

fn parse_error(code: &str, location: Option<DiagnosticLocation>) -> ParseError {
    ParseError { code: code.to_string(), msg: "msg".to_string(), location }
}

#[test]
fn unlocated_service_error_is_at_offset_zero() {
    let e = parse_error("L1234", None);
    let info = parse_error_to_diagnostic_info(FileId(3), &e, None, None, None).unwrap();
    assert_eq!((info.file_id, info.start, info.end), (FileId(3), 0, 0));
    assert_eq!(info.code, "L1234");
    let e = parse_error(
        "L1234",
        Some(DiagnosticLocation::Normal(Location::StartLocation { line: 4, column: 2 })),
    );
    let info = parse_error_to_diagnostic_info(FileId(3), &e, None, None, None).unwrap();
    assert_eq!((info.start, info.end), (0, 0));
}

#[test]
fn included_errors_move_to_the_included_file() {
    let loc = Some(DiagnosticLocation::Included {
        directive_location: range(0, 5),
        error_location: range(7, 9),
    });
    let e = parse_error("L1234", loc);
    let info = parse_error_to_diagnostic_info(FileId(1), &e, Some(FileId(2)), None, None).unwrap();
    assert_eq!((info.file_id, info.start, info.end), (FileId(2), 7, 9));
    assert!(parse_error_to_diagnostic_info(FileId(1), &e, None, None, None).is_none());
}

#[test]
fn definition_codes_are_narrowed_to_names() {
    let whole = range(10, 40);
    let fun = Some(range(10, 13));
    let rec = Some(range(18, 21));
    assert_eq!(narrow_range("L1230", whole, fun, rec), range(10, 13));
    assert_eq!(narrow_range("L1309", whole, fun, rec), range(10, 13));
    assert_eq!(narrow_range("L1260", whole, fun, rec), range(18, 21));
    assert_eq!(narrow_range("L1261", whole, fun, rec), whole);
    assert_eq!(narrow_range("L1230", whole, None, rec), whole);
    let e = parse_error("L1230", Some(DiagnosticLocation::Normal(Location::TextRange(whole))));
    let info = parse_error_to_diagnostic_info(FileId(1), &e, None, fun, rec).unwrap();
    assert_eq!((info.start, info.end), (10, 13));
}

#[test]
fn name_ranges_come_from_the_enclosing_declaration() {
    let text = "-module(m).\nfoo(X) -> X.\n-record(rec, {a}).\n";
    assert_eq!(declaration_name_range(text, 16, FormKind::FunDecl), Some(range(12, 15)));
    assert_eq!(declaration_name_range(text, 30, FormKind::Record), Some(range(33, 36)));
    assert_eq!(declaration_name_range(text, 30, FormKind::FunDecl), None);
}

#[test]
fn service_diagnostics_skip_those_reported_here() {
    let info = |msg: &str| DiagnosticInfo {
        file_id: FileId(1),
        start: 1,
        end: 2,
        code: "L0001".to_string(),
        msg: msg.to_string(),
    };
    let out = service_diagnostics(
        vec![info("head mismatch"), info("bad")],
        vec![info("no module definition"), info("meh")],
    );
    assert_eq!(out.len(), 2);
    assert_eq!(out[0].1.message, "bad");
    assert!(matches!(out[0].1.severity, Severity::Error));
    assert_eq!(out[1].1.message, "meh");
    assert!(matches!(out[1].1.severity, Severity::Warning));
    assert_eq!(out[1].1.code, DiagnosticCode::ErlangService("L0001".to_string()));
}

#[test]
fn change_ranges_constrain_lines() {
    assert!(check_changes(&[], 7));
    assert!(check_changes(&[(1, 3), (6, 8)], 7));
    assert!(check_changes(&[(1, 3), (6, 8)], 3));
    assert!(!check_changes(&[(1, 3), (6, 8)], 5));
    assert!(check(&None::<u32>, |_| false));
    assert!(!check(&Some(3u32), |l| *l > 4));
}

fn edit(start: u32, end: u32, insert: &str) -> TextEdit {
    TextEdit { delete: range(start, end), insert: insert.to_string() }
}

#[test]
fn edits_apply_in_order() {
    let text: Vec<char> = "do()->X=42, Y=X, bar(Y), Y.".chars().collect();
    // the redundant assignment `Y=X` renamed away: Y becomes X
    let edits = vec![edit(12, 13, "X"), edit(21, 22, "X"), edit(25, 26, "X")];
    assert!(edits_valid(&text, &edits));
    let out: String = apply_edits(&text, &edits).into_iter().collect();
    assert_eq!(out, "do()->X=42, X=X, bar(X), X.");
    assert_eq!(apply_edits(&text, &vec![]), text);
    assert!(!edits_valid(&text, &vec![edit(5, 9, ""), edit(7, 8, "")]));
    assert!(!edits_valid(&text, &vec![edit(5, 99, "")]));
}

fn diag_with_fix(start: u32, fix: Option<Vec<TextEdit>>) -> Diagnostic {
    let d = Diagnostic::warning(DiagnosticCode::TrivialMatch, range(start, start + 1), "m".to_string());
    match fix {
        Some(edits) => d.with_fixes(Some(vec![Assist {
            id: "fix".to_string(),
            label: "Fix".to_string(),
            target: range(start, start + 1),
            edits,
        }])),
        None => d,
    }
}

#[test]
fn the_first_fix_of_the_first_diagnostic_is_chosen() {
    let ds = vec![
        diag_with_fix(0, Some(vec![edit(0, 1, "a")])),
        diag_with_fix(3, Some(vec![edit(3, 4, "b")])),
    ];
    let es = choose_fix(ds).unwrap().unwrap();
    assert_eq!(es.len(), 1);
    assert_eq!(es[0].insert, "a");
    assert!(choose_fix(vec![]).unwrap().is_none());
    assert!(matches!(
        choose_fix(vec![diag_with_fix(0, None)]),
        Err(CodemodError::NoFixes { .. })
    ));
}

#[test]
fn selection_filters_by_code_lines_and_changes() {
    let text: Vec<char> = "a\nb\nc\nd\n".chars().collect();
    assert_eq!(line_number(&text, 4), 2);
    let ds = || vec![diag_with_fix(0, None), diag_with_fix(2, None), diag_with_fix(6, None)];
    assert_eq!(select_diagnostics(&text, ds(), None, None, None, &[]).len(), 3);
    let w7 = "W0007".to_string();
    let w8 = "W0008".to_string();
    assert_eq!(select_diagnostics(&text, ds(), Some(&w7), None, None, &[]).len(), 3);
    assert_eq!(select_diagnostics(&text, ds(), Some(&w8), None, None, &[]).len(), 0);
    assert_eq!(select_diagnostics(&text, ds(), None, Some(1), Some(2), &[]).len(), 1);
    assert_eq!(select_diagnostics(&text, ds(), None, None, None, &[(3, 3)]).len(), 1);
    let only_first = filter_diagnostics(ds(), &DiagnosticCode::TrivialMatch);
    assert_eq!(only_first.len(), 3);
    assert_eq!(filter_diagnostics(ds(), &DiagnosticCode::UnusedMacro).len(), 0);
}

#[test]
fn recursion_limit_is_ten() {
    assert_eq!(decide(1, true, true), Decision::Continue);
    assert_eq!(decide(9, true, true), Decision::Continue);
    assert_eq!(decide(10, true, true), Decision::Exhausted);
    assert_eq!(decide(3, false, true), Decision::Converged);
    assert_eq!(decide(1, true, false), Decision::Converged);
}

#[test]
fn edoc_diagnostics_cover_their_line() {
    let text: Vec<char> = "-module(m).\n%% @doc x\nfoo() -> ok.\n".chars().collect();
    assert_eq!(offset_of_line(&text, 0), Some(0));
    assert_eq!(offset_of_line(&text, 1), Some(12));
    assert_eq!(offset_of_line(&text, 3), Some(35));
    assert_eq!(offset_of_line(&text, 4), None);
    let entry = |line: u32, severity: &str, message: &str| EdocDiagnostic {
        line,
        severity: severity.to_string(),
        message: message.to_string(),
    };
    let entries = vec![
        entry(2, "warning", "w"),
        entry(0, "error", "e"),
        entry(2, "info", "ignored"),
    ];
    let out = edoc_diagnostics(FileId(4), &text, true, &entries);
    assert_eq!(out.len(), 2);
    assert_eq!(out[0].1.message, "e");
    assert_eq!(out[0].1.range, range(0, 12));
    assert_eq!(out[1].1.message, "w");
    assert_eq!(out[1].1.range, range(12, 22));
    assert!(matches!(out[1].1.severity, Severity::WeakWarning));
    assert_eq!(out[1].1.code.as_code(), "EDOC000");
    assert!(edoc_diagnostics(FileId(4), &text, false, &entries).is_empty());
}

#[test]
fn printed_diagnostic_names_position_severity_and_code() {
    let text: Vec<char> = "-module(m).\nfoo(1)->2\nfoo(2)->3.\n".chars().collect();
    let d = Diagnostic::warning(
        DiagnosticCode::Missing,
        range(12, 21),
        "Missing ';'".to_string(),
    );
    assert_eq!(d.print(&text), "1:0-1:9::[Warning] [W0004] Missing ';'");
}

#[test]
fn diagnostics_sort_by_start_then_code() {
    let mk = |start: u32, msg: &str| {
        Diagnostic::new(DiagnosticCode::TrivialMatch, msg.to_string(), range(start, start))
    };
    let sorted = sort_diagnostics(vec![mk(5, "a"), mk(1, "b"), mk(5, "c"), mk(0, "d")]);
    let msgs: Vec<&str> = sorted.iter().map(|d| d.message.as_str()).collect();
    assert_eq!(msgs, vec!["d", "b", "a", "c"]);
}

#[test]
fn exit_status_follows_the_result() {
    assert_eq!(handle_res::<String>(&Ok(())), 0);
    assert_eq!(handle_res(&Err("Errors found".to_string())), 101);
}

#[test]
fn diagnostics_group_by_file_in_order() {
    let mk = |msg: &str| Diagnostic::new(DiagnosticCode::TrivialMatch, msg.to_string(), range(0, 0));
    let groups = group_by_file(
        FileId(1),
        vec![(FileId(2), mk("a")), (FileId(1), mk("b")), (FileId(2), mk("c"))],
    );
    assert_eq!(groups.len(), 2);
    assert_eq!(groups[0].0, FileId(2));
    let first: Vec<&str> = groups[0].1.iter().map(|d| d.message.as_str()).collect();
    assert_eq!(first, vec!["a", "c"]);
    assert_eq!(groups[1].0, FileId(1));
    assert_eq!(groups[1].1.len(), 1);
    let empty = group_by_file(FileId(7), vec![]);
    assert_eq!(empty.len(), 1);
    assert_eq!(empty[0].0, FileId(7));
    assert!(empty[0].1.is_empty());
}

#[test]
fn named_declaration_ranges() {
    let text = "-module(m).\nfoo(X) -> X.\n-record(rec, {a}).\n";
    assert_eq!(elp::forms::function_name_range(text, 14), Some(range(12, 15)));
    assert_eq!(elp::forms::record_name_range(text, 26), Some(range(33, 36)));
    assert_eq!(elp::forms::record_name_range(text, 14), None);
}

#[test]
fn locations_become_ranges() {
    let text: Vec<char> = "ab\ncd\n".chars().collect();
    assert_eq!(
        elp::service::location_range(&text, Location::TextRange(range(1, 2))),
        Some(range(1, 2))
    );
    assert_eq!(
        elp::service::location_range(&text, Location::StartLocation { line: 1, column: 1 }),
        Some(range(4, 4))
    );
    assert_eq!(
        elp::service::location_range(&text, Location::StartLocation { line: 1, column: 9 }),
        Some(range(6, 6))
    );
    assert_eq!(
        elp::service::location_range(&text, Location::StartLocation { line: 5, column: 0 }),
        None
    );
}

#[test]
fn repeated_service_entries_are_reported_once() {
    let info = |msg: &str| DiagnosticInfo {
        file_id: FileId(1),
        start: 1,
        end: 2,
        code: "L0001".to_string(),
        msg: msg.to_string(),
    };
    let out = service_diagnostics(vec![info("bad"), info("bad"), info("worse")], vec![]);
    let msgs: Vec<&str> = out.iter().map(|(_, d)| d.message.as_str()).collect();
    assert_eq!(msgs, vec!["bad", "worse"]);
}

#[test]
fn settled_files_come_back_unchanged() {
    let text: Vec<char> = "-module(m).\nf() -> ok.\n".chars().collect();
    let fix_for = |t: &Vec<char>| {
        let s: String = t.iter().collect();
        choose_fix(elp::diagnostics::diagnostics(&s, true, &elp::diagnostics::DiagnosticsConfig::default()))
    };
    let (out, n) = run_codemod(vec![text.clone()], fix_for, true).unwrap();
    assert_eq!(out, vec![text]);
    assert_eq!(n, 1);
}

#[test]
fn service_diagnostics_are_grouped_by_file() {
    let info = |file: u32, msg: &str| DiagnosticInfo {
        file_id: FileId(file),
        start: 1,
        end: 2,
        code: "L0001".to_string(),
        msg: msg.to_string(),
    };
    let groups = erlang_service_diagnostics(
        FileId(1),
        vec![info(2, "a"), info(1, "b")],
        vec![info(2, "c")],
    );
    assert_eq!(groups.len(), 2);
    assert_eq!(groups[0].0, FileId(2));
    assert_eq!(groups[0].1.len(), 2);
    assert_eq!(groups[1].0, FileId(1));
    let empty = erlang_service_diagnostics(FileId(5), vec![info(1, "head mismatch")], vec![]);
    assert_eq!(empty.len(), 1);
    assert_eq!(empty[0].0, FileId(5));
    assert!(empty[0].1.is_empty());
}

#[test]
fn equal_starts_are_ordered_by_code() {
    let w9 = Diagnostic::new(DiagnosticCode::RedundantAssignment, "x".to_string(), range(3, 3));
    let w3 = Diagnostic::new(DiagnosticCode::UnusedRecordField, "y".to_string(), range(3, 3));
    let l1 = Diagnostic::new(DiagnosticCode::MissingModule, "z".to_string(), range(3, 3));
    let sorted = sort_diagnostics(vec![w9, w3, l1]);
    let codes: Vec<String> = sorted.iter().map(|d| d.code.as_code()).collect();
    assert_eq!(codes, vec!["L1201", "W0003", "W0009"]);
}
