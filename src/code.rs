//! Diagnostic codes: a closed set of codes plus two open namespaces, each
//! with a short code and a label, and parsing from either.

use vstd::prelude::*;

use crate::text::str_eq;
use crate::text::is_white;

verus! {

#[derive(Clone, Copy, Debug, PartialEq, Eq, Structural)]
pub enum Severity {
    Error,
    Warning,
    /// Shown unobtrusively: no entry in the problems pane, only on hover.
    WeakWarning,
}

#[derive(Clone, Debug, Hash)]
pub enum DiagnosticCode {
    DefaultCodeForEnumIter,
    HeadMismatch,
    MissingModule,
    ModuleMismatch,
    UnusedInclude,
    BoundVarInPattern,
    UnusedMacro,
    UnusedRecordField,
    MutableVarBug,
    SyntaxError,
    Missing,
    StatementHasNoEffect,
    TrivialMatch,
    UnusedFunctionArg,
    RedundantAssignment,
    UnreachableTest,
    ApplicationGetEnv,
    MissingCompileWarnMissingSpec,
    MisspelledAttribute,
    CrossNodeEval,
    /// A code of the external analysis service, such as `L1230`.
    ErlangService(String),
    /// A diagnostic of an ad-hoc lint or codemod.
    AdHoc(String),
}

/// What a diagnostic code denotes, with its strings as character sequences.
pub enum CodeView {
    DefaultCodeForEnumIter,
    HeadMismatch,
    MissingModule,
    ModuleMismatch,
    UnusedInclude,
    BoundVarInPattern,
    UnusedMacro,
    UnusedRecordField,
    MutableVarBug,
    SyntaxError,
    Missing,
    StatementHasNoEffect,
    TrivialMatch,
    UnusedFunctionArg,
    RedundantAssignment,
    UnreachableTest,
    ApplicationGetEnv,
    MissingCompileWarnMissingSpec,
    MisspelledAttribute,
    CrossNodeEval,
    ErlangService(Seq<char>),
    AdHoc(Seq<char>),
}

impl View for DiagnosticCode {
    type V = CodeView;

    open spec fn view(&self) -> CodeView {
        match self {
            DiagnosticCode::DefaultCodeForEnumIter => CodeView::DefaultCodeForEnumIter,
            DiagnosticCode::HeadMismatch => CodeView::HeadMismatch,
            DiagnosticCode::MissingModule => CodeView::MissingModule,
            DiagnosticCode::ModuleMismatch => CodeView::ModuleMismatch,
            DiagnosticCode::UnusedInclude => CodeView::UnusedInclude,
            DiagnosticCode::BoundVarInPattern => CodeView::BoundVarInPattern,
            DiagnosticCode::UnusedMacro => CodeView::UnusedMacro,
            DiagnosticCode::UnusedRecordField => CodeView::UnusedRecordField,
            DiagnosticCode::MutableVarBug => CodeView::MutableVarBug,
            DiagnosticCode::SyntaxError => CodeView::SyntaxError,
            DiagnosticCode::Missing => CodeView::Missing,
            DiagnosticCode::StatementHasNoEffect => CodeView::StatementHasNoEffect,
            DiagnosticCode::TrivialMatch => CodeView::TrivialMatch,
            DiagnosticCode::UnusedFunctionArg => CodeView::UnusedFunctionArg,
            DiagnosticCode::RedundantAssignment => CodeView::RedundantAssignment,
            DiagnosticCode::UnreachableTest => CodeView::UnreachableTest,
            DiagnosticCode::ApplicationGetEnv => CodeView::ApplicationGetEnv,
            DiagnosticCode::MissingCompileWarnMissingSpec => CodeView::MissingCompileWarnMissingSpec,
            DiagnosticCode::MisspelledAttribute => CodeView::MisspelledAttribute,
            DiagnosticCode::CrossNodeEval => CodeView::CrossNodeEval,
            DiagnosticCode::ErlangService(s) => CodeView::ErlangService(s@),
            DiagnosticCode::AdHoc(s) => CodeView::AdHoc(s@),
        }
    }
}

pub open spec fn adhoc_prefix() -> Seq<char> {
    seq!['a', 'd', '-', 'h', 'o', 'c', ':', ' ']
}

/// The short form of a code.
pub open spec fn code_text(c: CodeView) -> Seq<char> {
    match c {
        CodeView::DefaultCodeForEnumIter => seq!['D', 'E', 'F', 'A', 'U', 'L', 'T', '-', 'U', 'N', 'U', 'S', 'E', 'D', '-', 'C', 'O', 'N', 'S', 'T', 'R', 'U', 'C', 'T', 'O', 'R'],
        CodeView::HeadMismatch => seq!['P', '1', '7', '0', '0'],
        CodeView::MissingModule => seq!['L', '1', '2', '0', '1'],
        CodeView::ModuleMismatch => seq!['W', '0', '0', '0', '1'],
        CodeView::UnusedInclude => seq!['L', '1', '5', '0', '0'],
        CodeView::BoundVarInPattern => seq!['W', '0', '0', '0', '0'],
        CodeView::UnusedMacro => seq!['W', '0', '0', '0', '2'],
        CodeView::UnusedRecordField => seq!['W', '0', '0', '0', '3'],
        CodeView::MutableVarBug => seq!['W', '0', '0', '0', '5'],
        CodeView::SyntaxError => seq!['P', '1', '7', '1', '1'],
        CodeView::Missing => seq!['W', '0', '0', '0', '4'],
        CodeView::StatementHasNoEffect => seq!['W', '0', '0', '0', '6'],
        CodeView::TrivialMatch => seq!['W', '0', '0', '0', '7'],
        CodeView::UnusedFunctionArg => seq!['W', '0', '0', '1', '0'],
        CodeView::RedundantAssignment => seq!['W', '0', '0', '0', '9'],
        CodeView::UnreachableTest => seq!['W', '0', '0', '0', '8'],
        CodeView::ApplicationGetEnv => seq!['W', '0', '0', '1', '1'],
        CodeView::MissingCompileWarnMissingSpec => seq!['W', '0', '0', '1', '2'],
        CodeView::MisspelledAttribute => seq!['W', '0', '0', '1', '3'],
        CodeView::CrossNodeEval => seq!['W', '0', '0', '1', '4'],
        CodeView::ErlangService(s) => s,
        CodeView::AdHoc(s) => adhoc_prefix() + s,
    }
}

/// The label of a code.
pub open spec fn label_text(c: CodeView) -> Seq<char> {
    match c {
        CodeView::DefaultCodeForEnumIter => seq!['D', 'E', 'F', 'A', 'U', 'L', 'T', '-', 'U', 'N', 'U', 'S', 'E', 'D', '-', 'C', 'O', 'N', 'S', 'T', 'R', 'U', 'C', 'T', 'O', 'R'],
        CodeView::HeadMismatch => seq!['h', 'e', 'a', 'd', '_', 'm', 'i', 's', 'm', 'a', 't', 'c', 'h'],
        CodeView::MissingModule => seq!['m', 'i', 's', 's', 'i', 'n', 'g', '_', 'm', 'o', 'd', 'u', 'l', 'e'],
        CodeView::ModuleMismatch => seq!['m', 'o', 'd', 'u', 'l', 'e', '_', 'm', 'i', 's', 'm', 'a', 't', 'c', 'h'],
        CodeView::UnusedInclude => seq!['u', 'n', 'u', 's', 'e', 'd', '_', 'i', 'n', 'c', 'l', 'u', 'd', 'e'],
        CodeView::BoundVarInPattern => seq!['b', 'o', 'u', 'n', 'd', '_', 'v', 'a', 'r', '_', 'i', 'n', '_', 'p', 'a', 't', 't', 'e', 'r', 'n'],
        CodeView::UnusedMacro => seq!['u', 'n', 'u', 's', 'e', 'd', '_', 'm', 'a', 'c', 'r', 'o'],
        CodeView::UnusedRecordField => seq!['u', 'n', 'u', 's', 'e', 'd', '_', 'r', 'e', 'c', 'o', 'r', 'd', '_', 'f', 'i', 'e', 'l', 'd'],
        CodeView::MutableVarBug => seq!['m', 'u', 't', 'a', 'b', 'l', 'e', '_', 'v', 'a', 'r', 'i', 'a', 'b', 'l', 'e', '_', 'b', 'u', 'g'],
        CodeView::SyntaxError => seq!['s', 'y', 'n', 't', 'a', 'x', '_', 'e', 'r', 'r', 'o', 'r'],
        CodeView::Missing => seq!['m', 'i', 's', 's', 'i', 'n', 'g', '_', 'c', 'o', 'm', 'm', 'a', '_', 'o', 'r', '_', 'p', 'a', 'r', 'e', 'n', 't', 'h', 'e', 's', 'i', 's'],
        CodeView::StatementHasNoEffect => seq!['s', 't', 'a', 't', 'e', 'm', 'e', 'n', 't', '_', 'h', 'a', 's', '_', 'n', 'o', '_', 'e', 'f', 'f', 'e', 'c', 't'],
        CodeView::TrivialMatch => seq!['t', 'r', 'i', 'v', 'i', 'a', 'l', '_', 'm', 'a', 't', 'c', 'h'],
        CodeView::UnusedFunctionArg => seq!['u', 'n', 'u', 's', 'e', 'd', '_', 'f', 'u', 'n', 'c', 't', 'i', 'o', 'n', '_', 'a', 'r', 'g'],
        CodeView::RedundantAssignment => seq!['r', 'e', 'd', 'u', 'n', 'd', 'a', 'n', 't', '_', 'a', 's', 's', 'i', 'g', 'n', 'm', 'e', 'n', 't'],
        CodeView::UnreachableTest => seq!['u', 'n', 'r', 'e', 'a', 'c', 'h', 'a', 'b', 'l', 'e', '_', 't', 'e', 's', 't'],
        CodeView::ApplicationGetEnv => seq!['a', 'p', 'p', 'l', 'i', 'c', 'a', 't', 'i', 'o', 'n', '_', 'g', 'e', 't', '_', 'e', 'n', 'v'],
        CodeView::MissingCompileWarnMissingSpec => seq!['c', 'o', 'm', 'p', 'i', 'l', 'e', '-', 'w', 'a', 'r', 'n', '-', 'm', 'i', 's', 's', 'i', 'n', 'g', '-', 's', 'p', 'e', 'c'],
        CodeView::MisspelledAttribute => seq!['m', 'i', 's', 's', 'p', 'e', 'l', 'l', 'e', 'd', '_', 'a', 't', 't', 'r', 'i', 'b', 'u', 't', 'e'],
        CodeView::CrossNodeEval => seq!['c', 'r', 'o', 's', 's', '_', 'n', 'o', 'd', 'e', '_', 'e', 'v', 'a', 'l'],
        CodeView::ErlangService(s) => s,
        CodeView::AdHoc(s) => adhoc_prefix() + s,
    }
}

/// The code whose short form or label is `s`, among the closed set and the
/// empty members of the open namespaces, in declaration order.
pub open spec fn fixed_code(s: Seq<char>) -> Option<CodeView> {
    if s == seq!['D', 'E', 'F', 'A', 'U', 'L', 'T', '-', 'U', 'N', 'U', 'S', 'E', 'D', '-', 'C', 'O', 'N', 'S', 'T', 'R', 'U', 'C', 'T', 'O', 'R'] || s == seq!['D', 'E', 'F', 'A', 'U', 'L', 'T', '-', 'U', 'N', 'U', 'S', 'E', 'D', '-', 'C', 'O', 'N', 'S', 'T', 'R', 'U', 'C', 'T', 'O', 'R'] {
        Some(CodeView::DefaultCodeForEnumIter)
    } else if s == seq!['P', '1', '7', '0', '0'] || s == seq!['h', 'e', 'a', 'd', '_', 'm', 'i', 's', 'm', 'a', 't', 'c', 'h'] {
        Some(CodeView::HeadMismatch)
    } else if s == seq!['L', '1', '2', '0', '1'] || s == seq!['m', 'i', 's', 's', 'i', 'n', 'g', '_', 'm', 'o', 'd', 'u', 'l', 'e'] {
        Some(CodeView::MissingModule)
    } else if s == seq!['W', '0', '0', '0', '1'] || s == seq!['m', 'o', 'd', 'u', 'l', 'e', '_', 'm', 'i', 's', 'm', 'a', 't', 'c', 'h'] {
        Some(CodeView::ModuleMismatch)
    } else if s == seq!['L', '1', '5', '0', '0'] || s == seq!['u', 'n', 'u', 's', 'e', 'd', '_', 'i', 'n', 'c', 'l', 'u', 'd', 'e'] {
        Some(CodeView::UnusedInclude)
    } else if s == seq!['W', '0', '0', '0', '0'] || s == seq!['b', 'o', 'u', 'n', 'd', '_', 'v', 'a', 'r', '_', 'i', 'n', '_', 'p', 'a', 't', 't', 'e', 'r', 'n'] {
        Some(CodeView::BoundVarInPattern)
    } else if s == seq!['W', '0', '0', '0', '2'] || s == seq!['u', 'n', 'u', 's', 'e', 'd', '_', 'm', 'a', 'c', 'r', 'o'] {
        Some(CodeView::UnusedMacro)
    } else if s == seq!['W', '0', '0', '0', '3'] || s == seq!['u', 'n', 'u', 's', 'e', 'd', '_', 'r', 'e', 'c', 'o', 'r', 'd', '_', 'f', 'i', 'e', 'l', 'd'] {
        Some(CodeView::UnusedRecordField)
    } else if s == seq!['W', '0', '0', '0', '5'] || s == seq!['m', 'u', 't', 'a', 'b', 'l', 'e', '_', 'v', 'a', 'r', 'i', 'a', 'b', 'l', 'e', '_', 'b', 'u', 'g'] {
        Some(CodeView::MutableVarBug)
    } else if s == seq!['P', '1', '7', '1', '1'] || s == seq!['s', 'y', 'n', 't', 'a', 'x', '_', 'e', 'r', 'r', 'o', 'r'] {
        Some(CodeView::SyntaxError)
    } else if s == seq!['W', '0', '0', '0', '4'] || s == seq!['m', 'i', 's', 's', 'i', 'n', 'g', '_', 'c', 'o', 'm', 'm', 'a', '_', 'o', 'r', '_', 'p', 'a', 'r', 'e', 'n', 't', 'h', 'e', 's', 'i', 's'] {
        Some(CodeView::Missing)
    } else if s == seq!['W', '0', '0', '0', '6'] || s == seq!['s', 't', 'a', 't', 'e', 'm', 'e', 'n', 't', '_', 'h', 'a', 's', '_', 'n', 'o', '_', 'e', 'f', 'f', 'e', 'c', 't'] {
        Some(CodeView::StatementHasNoEffect)
    } else if s == seq!['W', '0', '0', '0', '7'] || s == seq!['t', 'r', 'i', 'v', 'i', 'a', 'l', '_', 'm', 'a', 't', 'c', 'h'] {
        Some(CodeView::TrivialMatch)
    } else if s == seq!['W', '0', '0', '1', '0'] || s == seq!['u', 'n', 'u', 's', 'e', 'd', '_', 'f', 'u', 'n', 'c', 't', 'i', 'o', 'n', '_', 'a', 'r', 'g'] {
        Some(CodeView::UnusedFunctionArg)
    } else if s == seq!['W', '0', '0', '0', '9'] || s == seq!['r', 'e', 'd', 'u', 'n', 'd', 'a', 'n', 't', '_', 'a', 's', 's', 'i', 'g', 'n', 'm', 'e', 'n', 't'] {
        Some(CodeView::RedundantAssignment)
    } else if s == seq!['W', '0', '0', '0', '8'] || s == seq!['u', 'n', 'r', 'e', 'a', 'c', 'h', 'a', 'b', 'l', 'e', '_', 't', 'e', 's', 't'] {
        Some(CodeView::UnreachableTest)
    } else if s == seq!['W', '0', '0', '1', '1'] || s == seq!['a', 'p', 'p', 'l', 'i', 'c', 'a', 't', 'i', 'o', 'n', '_', 'g', 'e', 't', '_', 'e', 'n', 'v'] {
        Some(CodeView::ApplicationGetEnv)
    } else if s == seq!['W', '0', '0', '1', '2'] || s == seq!['c', 'o', 'm', 'p', 'i', 'l', 'e', '-', 'w', 'a', 'r', 'n', '-', 'm', 'i', 's', 's', 'i', 'n', 'g', '-', 's', 'p', 'e', 'c'] {
        Some(CodeView::MissingCompileWarnMissingSpec)
    } else if s == seq!['W', '0', '0', '1', '3'] || s == seq!['m', 'i', 's', 's', 'p', 'e', 'l', 'l', 'e', 'd', '_', 'a', 't', 't', 'r', 'i', 'b', 'u', 't', 'e'] {
        Some(CodeView::MisspelledAttribute)
    } else if s == seq!['W', '0', '0', '1', '4'] || s == seq!['c', 'r', 'o', 's', 's', '_', 'n', 'o', 'd', 'e', '_', 'e', 'v', 'a', 'l'] {
        Some(CodeView::CrossNodeEval)
    } else if s.len() == 0 {
        Some(CodeView::ErlangService(Seq::empty()))
    } else if s == adhoc_prefix() {
        Some(CodeView::AdHoc(Seq::empty()))
    } else {
        None
    }
}

pub open spec fn is_upper_ascii(c: char) -> bool {
    'A' <= c && c <= 'Z'
}

pub open spec fn is_digit_ascii(c: char) -> bool {
    '0' <= c && c <= '9'
}

/// `s` is one or more upper-case ASCII letters followed by four digits.
pub open spec fn is_service_code(s: Seq<char>) -> bool {
    &&& s.len() >= 5
    &&& forall|k: int| 0 <= k < s.len() - 4 ==> is_upper_ascii(#[trigger] s[k])
    &&& forall|k: int| s.len() - 4 <= k < s.len() ==> is_digit_ascii(#[trigger] s[k])
}

/// The name of an ad-hoc code written `ad-hoc: NAME`, NAME being one or
/// more non-whitespace characters.
pub open spec fn adhoc_name(s: Seq<char>) -> Option<Seq<char>> {
    if s.len() > adhoc_prefix().len() && s.subrange(0, adhoc_prefix().len() as int)
        == adhoc_prefix() && (forall|k: int|
        adhoc_prefix().len() <= k < s.len() ==> !is_white(#[trigger] s[k])) {
        Some(s.subrange(adhoc_prefix().len() as int, s.len() as int))
    } else {
        None
    }
}

pub open spec fn service_code(s: Seq<char>) -> Option<Seq<char>> {
    if is_service_code(s) {
        Some(s)
    } else {
        None
    }
}

/// The code that `s` names: the closed set first, then an ad-hoc name,
/// then a service code.
pub open spec fn code_from_string(s: Seq<char>) -> Option<CodeView> {
    match fixed_code(s) {
        Some(c) => Some(c),
        None => match adhoc_name(s) {
            Some(n) => Some(CodeView::AdHoc(n)),
            None => match service_code(s) {
                Some(n) => Some(CodeView::ErlangService(n)),
                None => None,
            },
        },
    }
}

pub open spec fn opt_string_view(o: Option<String>) -> Option<Seq<char>> {
    match o {
        Some(s) => Some(s@),
        None => None,
    }
}

/// Relies on `regex::Regex::new` and `Regex::captures`: the text of the first
/// capture group of `pattern` in `s`. Both patterns are anchored at both
/// ends, `\s` is Unicode white space, `[A-Z]` and `[0-9]` are ASCII ranges.
#[verifier::external_body]
fn first_capture(pattern: &str, s: &str) -> (r: Option<String>)
    requires
        pattern@ == "^ad-hoc: ([^\\s]+)$"@ || pattern@ == "^([A-Z]+[0-9]{4})$"@,
    ensures
        opt_string_view(r) == if pattern@ == "^ad-hoc: ([^\\s]+)$"@ {
            adhoc_name(s@)
        } else {
            service_code(s@)
        },
{
    regex::Regex::new(pattern).unwrap().captures(s).map(|c| c[1].to_string())
}

impl PartialEq for DiagnosticCode {
    fn eq(&self, other: &DiagnosticCode) -> (r: bool) {
        match (self, other) {
            (DiagnosticCode::DefaultCodeForEnumIter, DiagnosticCode::DefaultCodeForEnumIter) => true,
            (DiagnosticCode::HeadMismatch, DiagnosticCode::HeadMismatch) => true,
            (DiagnosticCode::MissingModule, DiagnosticCode::MissingModule) => true,
            (DiagnosticCode::ModuleMismatch, DiagnosticCode::ModuleMismatch) => true,
            (DiagnosticCode::UnusedInclude, DiagnosticCode::UnusedInclude) => true,
            (DiagnosticCode::BoundVarInPattern, DiagnosticCode::BoundVarInPattern) => true,
            (DiagnosticCode::UnusedMacro, DiagnosticCode::UnusedMacro) => true,
            (DiagnosticCode::UnusedRecordField, DiagnosticCode::UnusedRecordField) => true,
            (DiagnosticCode::MutableVarBug, DiagnosticCode::MutableVarBug) => true,
            (DiagnosticCode::SyntaxError, DiagnosticCode::SyntaxError) => true,
            (DiagnosticCode::Missing, DiagnosticCode::Missing) => true,
            (DiagnosticCode::StatementHasNoEffect, DiagnosticCode::StatementHasNoEffect) => true,
            (DiagnosticCode::TrivialMatch, DiagnosticCode::TrivialMatch) => true,
            (DiagnosticCode::UnusedFunctionArg, DiagnosticCode::UnusedFunctionArg) => true,
            (DiagnosticCode::RedundantAssignment, DiagnosticCode::RedundantAssignment) => true,
            (DiagnosticCode::UnreachableTest, DiagnosticCode::UnreachableTest) => true,
            (DiagnosticCode::ApplicationGetEnv, DiagnosticCode::ApplicationGetEnv) => true,
            (DiagnosticCode::MissingCompileWarnMissingSpec, DiagnosticCode::MissingCompileWarnMissingSpec) => true,
            (DiagnosticCode::MisspelledAttribute, DiagnosticCode::MisspelledAttribute) => true,
            (DiagnosticCode::CrossNodeEval, DiagnosticCode::CrossNodeEval) => true,
            (DiagnosticCode::ErlangService(a), DiagnosticCode::ErlangService(b)) => a.eq(b),
            (DiagnosticCode::AdHoc(a), DiagnosticCode::AdHoc(b)) => a.eq(b),
            _ => false,
        }
    }
}

impl vstd::std_specs::cmp::PartialEqSpecImpl for DiagnosticCode {
    open spec fn obeys_eq_spec() -> bool {
        true
    }

    open spec fn eq_spec(&self, other: &DiagnosticCode) -> bool {
        self@ == other@
    }
}

impl Eq for DiagnosticCode {

}

impl DiagnosticCode {
    /// The short form, e.g. `W0007`.
    pub fn as_code(&self) -> (r: String)
        ensures
            r@ == code_text(self@),
    {
        let r = match self {
            DiagnosticCode::DefaultCodeForEnumIter => String::from_str("DEFAULT-UNUSED-CONSTRUCTOR"),
            DiagnosticCode::HeadMismatch => String::from_str("P1700"),
            DiagnosticCode::MissingModule => String::from_str("L1201"),
            DiagnosticCode::ModuleMismatch => String::from_str("W0001"),
            DiagnosticCode::UnusedInclude => String::from_str("L1500"),
            DiagnosticCode::BoundVarInPattern => String::from_str("W0000"),
            DiagnosticCode::UnusedMacro => String::from_str("W0002"),
            DiagnosticCode::UnusedRecordField => String::from_str("W0003"),
            DiagnosticCode::MutableVarBug => String::from_str("W0005"),
            DiagnosticCode::SyntaxError => String::from_str("P1711"),
            DiagnosticCode::Missing => String::from_str("W0004"),
            DiagnosticCode::StatementHasNoEffect => String::from_str("W0006"),
            DiagnosticCode::TrivialMatch => String::from_str("W0007"),
            DiagnosticCode::UnusedFunctionArg => String::from_str("W0010"),
            DiagnosticCode::RedundantAssignment => String::from_str("W0009"),
            DiagnosticCode::UnreachableTest => String::from_str("W0008"),
            DiagnosticCode::ApplicationGetEnv => String::from_str("W0011"),
            DiagnosticCode::MissingCompileWarnMissingSpec => String::from_str("W0012"),
            DiagnosticCode::MisspelledAttribute => String::from_str("W0013"),
            DiagnosticCode::CrossNodeEval => String::from_str("W0014"),
            DiagnosticCode::ErlangService(c) => c.clone(),
            DiagnosticCode::AdHoc(c) => {
                let mut r = String::from_str("ad-hoc: ");
                r.append(c.as_str());
                r
            },
        };
        proof {
            reveal_strlit("DEFAULT-UNUSED-CONSTRUCTOR");
            reveal_strlit("P1700");
            reveal_strlit("L1201");
            reveal_strlit("W0001");
            reveal_strlit("L1500");
            reveal_strlit("W0000");
            reveal_strlit("W0002");
            reveal_strlit("W0003");
            reveal_strlit("W0005");
            reveal_strlit("P1711");
            reveal_strlit("W0004");
            reveal_strlit("W0006");
            reveal_strlit("W0007");
            reveal_strlit("W0010");
            reveal_strlit("W0009");
            reveal_strlit("W0008");
            reveal_strlit("W0011");
            reveal_strlit("W0012");
            reveal_strlit("W0013");
            reveal_strlit("W0014");
            reveal_strlit("ad-hoc: ");
        }
        assert(r@ =~= code_text(self@));
        r
    }

    /// The label, e.g. `trivial_match`.
    pub fn as_label(&self) -> (r: String)
        ensures
            r@ == label_text(self@),
    {
        let r = match self {
            DiagnosticCode::DefaultCodeForEnumIter => String::from_str("DEFAULT-UNUSED-CONSTRUCTOR"),
            DiagnosticCode::HeadMismatch => String::from_str("head_mismatch"),
            DiagnosticCode::MissingModule => String::from_str("missing_module"),
            DiagnosticCode::ModuleMismatch => String::from_str("module_mismatch"),
            DiagnosticCode::UnusedInclude => String::from_str("unused_include"),
            DiagnosticCode::BoundVarInPattern => String::from_str("bound_var_in_pattern"),
            DiagnosticCode::UnusedMacro => String::from_str("unused_macro"),
            DiagnosticCode::UnusedRecordField => String::from_str("unused_record_field"),
            DiagnosticCode::MutableVarBug => String::from_str("mutable_variable_bug"),
            DiagnosticCode::SyntaxError => String::from_str("syntax_error"),
            DiagnosticCode::Missing => String::from_str("missing_comma_or_parenthesis"),
            DiagnosticCode::StatementHasNoEffect => String::from_str("statement_has_no_effect"),
            DiagnosticCode::TrivialMatch => String::from_str("trivial_match"),
            DiagnosticCode::UnusedFunctionArg => String::from_str("unused_function_arg"),
            DiagnosticCode::RedundantAssignment => String::from_str("redundant_assignment"),
            DiagnosticCode::UnreachableTest => String::from_str("unreachable_test"),
            DiagnosticCode::ApplicationGetEnv => String::from_str("application_get_env"),
            DiagnosticCode::MissingCompileWarnMissingSpec => String::from_str("compile-warn-missing-spec"),
            DiagnosticCode::MisspelledAttribute => String::from_str("misspelled_attribute"),
            DiagnosticCode::CrossNodeEval => String::from_str("cross_node_eval"),
            DiagnosticCode::ErlangService(c) => c.clone(),
            DiagnosticCode::AdHoc(c) => {
                let mut r = String::from_str("ad-hoc: ");
                r.append(c.as_str());
                r
            },
        };
        proof {
            reveal_strlit("DEFAULT-UNUSED-CONSTRUCTOR");
            reveal_strlit("head_mismatch");
            reveal_strlit("missing_module");
            reveal_strlit("module_mismatch");
            reveal_strlit("unused_include");
            reveal_strlit("bound_var_in_pattern");
            reveal_strlit("unused_macro");
            reveal_strlit("unused_record_field");
            reveal_strlit("mutable_variable_bug");
            reveal_strlit("syntax_error");
            reveal_strlit("missing_comma_or_parenthesis");
            reveal_strlit("statement_has_no_effect");
            reveal_strlit("trivial_match");
            reveal_strlit("unused_function_arg");
            reveal_strlit("redundant_assignment");
            reveal_strlit("unreachable_test");
            reveal_strlit("application_get_env");
            reveal_strlit("compile-warn-missing-spec");
            reveal_strlit("misspelled_attribute");
            reveal_strlit("cross_node_eval");
            reveal_strlit("ad-hoc: ");
        }
        assert(r@ =~= label_text(self@));
        r
    }

    /// The member of the closed set (or empty open code) that `s` names.
    fn fixed_from_str(s: &str) -> (r: Option<DiagnosticCode>)
        ensures
            match r {
                Some(c) => fixed_code(s@) == Some(c@),
                None => fixed_code(s@) is None,
            },
    {
        proof {
            reveal_strlit("DEFAULT-UNUSED-CONSTRUCTOR");
            reveal_strlit("DEFAULT-UNUSED-CONSTRUCTOR");
            assert("DEFAULT-UNUSED-CONSTRUCTOR"@ =~= seq!['D', 'E', 'F', 'A', 'U', 'L', 'T', '-', 'U', 'N', 'U', 'S', 'E', 'D', '-', 'C', 'O', 'N', 'S', 'T', 'R', 'U', 'C', 'T', 'O', 'R']);
            assert("DEFAULT-UNUSED-CONSTRUCTOR"@ =~= seq!['D', 'E', 'F', 'A', 'U', 'L', 'T', '-', 'U', 'N', 'U', 'S', 'E', 'D', '-', 'C', 'O', 'N', 'S', 'T', 'R', 'U', 'C', 'T', 'O', 'R']);
        }
        if str_eq(s, "DEFAULT-UNUSED-CONSTRUCTOR") || str_eq(s, "DEFAULT-UNUSED-CONSTRUCTOR") {
            return Some(DiagnosticCode::DefaultCodeForEnumIter);
        }
        proof {
            reveal_strlit("P1700");
            reveal_strlit("head_mismatch");
            assert("P1700"@ =~= seq!['P', '1', '7', '0', '0']);
            assert("head_mismatch"@ =~= seq!['h', 'e', 'a', 'd', '_', 'm', 'i', 's', 'm', 'a', 't', 'c', 'h']);
        }
        if str_eq(s, "P1700") || str_eq(s, "head_mismatch") {
            return Some(DiagnosticCode::HeadMismatch);
        }
        proof {
            reveal_strlit("L1201");
            reveal_strlit("missing_module");
            assert("L1201"@ =~= seq!['L', '1', '2', '0', '1']);
            assert("missing_module"@ =~= seq!['m', 'i', 's', 's', 'i', 'n', 'g', '_', 'm', 'o', 'd', 'u', 'l', 'e']);
        }
        if str_eq(s, "L1201") || str_eq(s, "missing_module") {
            return Some(DiagnosticCode::MissingModule);
        }
        proof {
            reveal_strlit("W0001");
            reveal_strlit("module_mismatch");
            assert("W0001"@ =~= seq!['W', '0', '0', '0', '1']);
            assert("module_mismatch"@ =~= seq!['m', 'o', 'd', 'u', 'l', 'e', '_', 'm', 'i', 's', 'm', 'a', 't', 'c', 'h']);
        }
        if str_eq(s, "W0001") || str_eq(s, "module_mismatch") {
            return Some(DiagnosticCode::ModuleMismatch);
        }
        proof {
            reveal_strlit("L1500");
            reveal_strlit("unused_include");
            assert("L1500"@ =~= seq!['L', '1', '5', '0', '0']);
            assert("unused_include"@ =~= seq!['u', 'n', 'u', 's', 'e', 'd', '_', 'i', 'n', 'c', 'l', 'u', 'd', 'e']);
        }
        if str_eq(s, "L1500") || str_eq(s, "unused_include") {
            return Some(DiagnosticCode::UnusedInclude);
        }
        proof {
            reveal_strlit("W0000");
            reveal_strlit("bound_var_in_pattern");
            assert("W0000"@ =~= seq!['W', '0', '0', '0', '0']);
            assert("bound_var_in_pattern"@ =~= seq!['b', 'o', 'u', 'n', 'd', '_', 'v', 'a', 'r', '_', 'i', 'n', '_', 'p', 'a', 't', 't', 'e', 'r', 'n']);
        }
        if str_eq(s, "W0000") || str_eq(s, "bound_var_in_pattern") {
            return Some(DiagnosticCode::BoundVarInPattern);
        }
        proof {
            reveal_strlit("W0002");
            reveal_strlit("unused_macro");
            assert("W0002"@ =~= seq!['W', '0', '0', '0', '2']);
            assert("unused_macro"@ =~= seq!['u', 'n', 'u', 's', 'e', 'd', '_', 'm', 'a', 'c', 'r', 'o']);
        }
        if str_eq(s, "W0002") || str_eq(s, "unused_macro") {
            return Some(DiagnosticCode::UnusedMacro);
        }
        proof {
            reveal_strlit("W0003");
            reveal_strlit("unused_record_field");
            assert("W0003"@ =~= seq!['W', '0', '0', '0', '3']);
            assert("unused_record_field"@ =~= seq!['u', 'n', 'u', 's', 'e', 'd', '_', 'r', 'e', 'c', 'o', 'r', 'd', '_', 'f', 'i', 'e', 'l', 'd']);
        }
        if str_eq(s, "W0003") || str_eq(s, "unused_record_field") {
            return Some(DiagnosticCode::UnusedRecordField);
        }
        proof {
            reveal_strlit("W0005");
            reveal_strlit("mutable_variable_bug");
            assert("W0005"@ =~= seq!['W', '0', '0', '0', '5']);
            assert("mutable_variable_bug"@ =~= seq!['m', 'u', 't', 'a', 'b', 'l', 'e', '_', 'v', 'a', 'r', 'i', 'a', 'b', 'l', 'e', '_', 'b', 'u', 'g']);
        }
        if str_eq(s, "W0005") || str_eq(s, "mutable_variable_bug") {
            return Some(DiagnosticCode::MutableVarBug);
        }
        proof {
            reveal_strlit("P1711");
            reveal_strlit("syntax_error");
            assert("P1711"@ =~= seq!['P', '1', '7', '1', '1']);
            assert("syntax_error"@ =~= seq!['s', 'y', 'n', 't', 'a', 'x', '_', 'e', 'r', 'r', 'o', 'r']);
        }
        if str_eq(s, "P1711") || str_eq(s, "syntax_error") {
            return Some(DiagnosticCode::SyntaxError);
        }
        proof {
            reveal_strlit("W0004");
            reveal_strlit("missing_comma_or_parenthesis");
            assert("W0004"@ =~= seq!['W', '0', '0', '0', '4']);
            assert("missing_comma_or_parenthesis"@ =~= seq!['m', 'i', 's', 's', 'i', 'n', 'g', '_', 'c', 'o', 'm', 'm', 'a', '_', 'o', 'r', '_', 'p', 'a', 'r', 'e', 'n', 't', 'h', 'e', 's', 'i', 's']);
        }
        if str_eq(s, "W0004") || str_eq(s, "missing_comma_or_parenthesis") {
            return Some(DiagnosticCode::Missing);
        }
        proof {
            reveal_strlit("W0006");
            reveal_strlit("statement_has_no_effect");
            assert("W0006"@ =~= seq!['W', '0', '0', '0', '6']);
            assert("statement_has_no_effect"@ =~= seq!['s', 't', 'a', 't', 'e', 'm', 'e', 'n', 't', '_', 'h', 'a', 's', '_', 'n', 'o', '_', 'e', 'f', 'f', 'e', 'c', 't']);
        }
        if str_eq(s, "W0006") || str_eq(s, "statement_has_no_effect") {
            return Some(DiagnosticCode::StatementHasNoEffect);
        }
        proof {
            reveal_strlit("W0007");
            reveal_strlit("trivial_match");
            assert("W0007"@ =~= seq!['W', '0', '0', '0', '7']);
            assert("trivial_match"@ =~= seq!['t', 'r', 'i', 'v', 'i', 'a', 'l', '_', 'm', 'a', 't', 'c', 'h']);
        }
        if str_eq(s, "W0007") || str_eq(s, "trivial_match") {
            return Some(DiagnosticCode::TrivialMatch);
        }
        proof {
            reveal_strlit("W0010");
            reveal_strlit("unused_function_arg");
            assert("W0010"@ =~= seq!['W', '0', '0', '1', '0']);
            assert("unused_function_arg"@ =~= seq!['u', 'n', 'u', 's', 'e', 'd', '_', 'f', 'u', 'n', 'c', 't', 'i', 'o', 'n', '_', 'a', 'r', 'g']);
        }
        if str_eq(s, "W0010") || str_eq(s, "unused_function_arg") {
            return Some(DiagnosticCode::UnusedFunctionArg);
        }
        proof {
            reveal_strlit("W0009");
            reveal_strlit("redundant_assignment");
            assert("W0009"@ =~= seq!['W', '0', '0', '0', '9']);
            assert("redundant_assignment"@ =~= seq!['r', 'e', 'd', 'u', 'n', 'd', 'a', 'n', 't', '_', 'a', 's', 's', 'i', 'g', 'n', 'm', 'e', 'n', 't']);
        }
        if str_eq(s, "W0009") || str_eq(s, "redundant_assignment") {
            return Some(DiagnosticCode::RedundantAssignment);
        }
        proof {
            reveal_strlit("W0008");
            reveal_strlit("unreachable_test");
            assert("W0008"@ =~= seq!['W', '0', '0', '0', '8']);
            assert("unreachable_test"@ =~= seq!['u', 'n', 'r', 'e', 'a', 'c', 'h', 'a', 'b', 'l', 'e', '_', 't', 'e', 's', 't']);
        }
        if str_eq(s, "W0008") || str_eq(s, "unreachable_test") {
            return Some(DiagnosticCode::UnreachableTest);
        }
        proof {
            reveal_strlit("W0011");
            reveal_strlit("application_get_env");
            assert("W0011"@ =~= seq!['W', '0', '0', '1', '1']);
            assert("application_get_env"@ =~= seq!['a', 'p', 'p', 'l', 'i', 'c', 'a', 't', 'i', 'o', 'n', '_', 'g', 'e', 't', '_', 'e', 'n', 'v']);
        }
        if str_eq(s, "W0011") || str_eq(s, "application_get_env") {
            return Some(DiagnosticCode::ApplicationGetEnv);
        }
        proof {
            reveal_strlit("W0012");
            reveal_strlit("compile-warn-missing-spec");
            assert("W0012"@ =~= seq!['W', '0', '0', '1', '2']);
            assert("compile-warn-missing-spec"@ =~= seq!['c', 'o', 'm', 'p', 'i', 'l', 'e', '-', 'w', 'a', 'r', 'n', '-', 'm', 'i', 's', 's', 'i', 'n', 'g', '-', 's', 'p', 'e', 'c']);
        }
        if str_eq(s, "W0012") || str_eq(s, "compile-warn-missing-spec") {
            return Some(DiagnosticCode::MissingCompileWarnMissingSpec);
        }
        proof {
            reveal_strlit("W0013");
            reveal_strlit("misspelled_attribute");
            assert("W0013"@ =~= seq!['W', '0', '0', '1', '3']);
            assert("misspelled_attribute"@ =~= seq!['m', 'i', 's', 's', 'p', 'e', 'l', 'l', 'e', 'd', '_', 'a', 't', 't', 'r', 'i', 'b', 'u', 't', 'e']);
        }
        if str_eq(s, "W0013") || str_eq(s, "misspelled_attribute") {
            return Some(DiagnosticCode::MisspelledAttribute);
        }
        proof {
            reveal_strlit("W0014");
            reveal_strlit("cross_node_eval");
            assert("W0014"@ =~= seq!['W', '0', '0', '1', '4']);
            assert("cross_node_eval"@ =~= seq!['c', 'r', 'o', 's', 's', '_', 'n', 'o', 'd', 'e', '_', 'e', 'v', 'a', 'l']);
        }
        if str_eq(s, "W0014") || str_eq(s, "cross_node_eval") {
            return Some(DiagnosticCode::CrossNodeEval);
        }
        proof {
            reveal_strlit("");
            reveal_strlit("ad-hoc: ");
            assert(""@ =~= Seq::<char>::empty());
            assert("ad-hoc: "@ =~= adhoc_prefix());
        }
        if str_eq(s, "") {
            let r = DiagnosticCode::ErlangService(String::new());
            assert(r@ == CodeView::ErlangService(Seq::empty()));
            return Some(r);
        }
        if str_eq(s, "ad-hoc: ") {
            let r = DiagnosticCode::AdHoc(String::new());
            assert(r@ == CodeView::AdHoc(Seq::empty()));
            return Some(r);
        }
        proof {
            if s@.len() == 0 {
                assert(s@ =~= Seq::<char>::empty());
            }
        }
        None
    }

    /// Reads a code from its short form or its label.
    pub fn maybe_from_string(s: &String) -> (r: Option<DiagnosticCode>)
        ensures
            match r {
                Some(c) => code_from_string(s@) == Some(c@),
                None => code_from_string(s@) is None,
            },
    {
        if let Some(r) = Self::fixed_from_str(s.as_str()) {
            Some(r)
        } else {
            if let Some(code) = Self::is_adhoc(s.as_str()) {
                Some(DiagnosticCode::AdHoc(code))
            } else {
                if let Some(code) = Self::is_erlang_service(s.as_str()) {
                    Some(DiagnosticCode::ErlangService(code))
                } else {
                    None
                }
            }
        }
    }

    /// The name of an ad-hoc code, as in `ad-hoc: ad-hoc-title-1`.
    fn is_adhoc(s: &str) -> (r: Option<String>)
        ensures
            opt_string_view(r) == adhoc_name(s@),
    {
        first_capture("^ad-hoc: ([^\\s]+)$", s)
    }

    /// A code of the external analysis service, as in `L0008`.
    fn is_erlang_service(s: &str) -> (r: Option<String>)
        ensures
            opt_string_view(r) == service_code(s@),
    {
        let r = first_capture("^([A-Z]+[0-9]{4})$", s);
        proof {
            reveal_strlit("^ad-hoc: ([^\\s]+)$");
            reveal_strlit("^([A-Z]+[0-9]{4})$");
            assert("^ad-hoc: ([^\\s]+)$"@[1] != "^([A-Z]+[0-9]{4})$"@[1]);
        }
        r
    }

    /// Reads a code from its short form or its label.
    pub fn from_str(s: &str) -> (r: Result<DiagnosticCode, String>)
        ensures
            match r {
                Ok(c) => code_from_string(s@) == Some(c@),
                Err(_) => code_from_string(s@) is None,
            },
    {
        let owned = String::from_str(s);
        match Self::maybe_from_string(&owned) {
            Some(code) => Ok(code),
            None => {
                let mut msg = String::from_str("Unknown DiagnosticCode: '");
                msg.append(s);
                msg.append("'");
                Err(msg)
            },
        }
    }

    pub fn is_erlang_service_code(&self) -> (r: bool)
        ensures
            r == (self@ is ErlangService),
    {
        match self {
            DiagnosticCode::ErlangService(_) => true,
            _ => false,
        }
    }
}

/// The well-formed codes, which survive a round trip through their short
/// form and label: every member of the closed set, service codes that are
/// empty or have the service shape and are no short form or label of the
/// closed set, and ad-hoc codes whose name holds no white space.
pub open spec fn round_trips(c: CodeView) -> bool {
    match c {
        CodeView::ErlangService(s) => s.len() == 0 || (is_service_code(s) && fixed_code(s) is None),
        CodeView::AdHoc(s) => forall|k: int| 0 <= k < s.len() ==> !is_white(#[trigger] s[k]),
        _ => true,
    }
}

/// Characters that tell the short forms and labels apart.
proof fn lemma_code_text_chars()
    ensures
        seq!['D', 'E', 'F', 'A', 'U', 'L', 'T', '-', 'U', 'N', 'U', 'S', 'E', 'D', '-', 'C', 'O', 'N', 'S', 'T', 'R', 'U', 'C', 'T', 'O', 'R'].len() == 26,
        seq!['P', '1', '7', '0', '0'].len() == 5,
        seq!['h', 'e', 'a', 'd', '_', 'm', 'i', 's', 'm', 'a', 't', 'c', 'h'].len() == 13,
        seq!['L', '1', '2', '0', '1'].len() == 5,
        seq!['m', 'i', 's', 's', 'i', 'n', 'g', '_', 'm', 'o', 'd', 'u', 'l', 'e'].len() == 14,
        seq!['W', '0', '0', '0', '1'].len() == 5,
        seq!['m', 'o', 'd', 'u', 'l', 'e', '_', 'm', 'i', 's', 'm', 'a', 't', 'c', 'h'].len() == 15,
        seq!['L', '1', '5', '0', '0'].len() == 5,
        seq!['u', 'n', 'u', 's', 'e', 'd', '_', 'i', 'n', 'c', 'l', 'u', 'd', 'e'].len() == 14,
        seq!['W', '0', '0', '0', '0'].len() == 5,
        seq!['b', 'o', 'u', 'n', 'd', '_', 'v', 'a', 'r', '_', 'i', 'n', '_', 'p', 'a', 't', 't', 'e', 'r', 'n'].len() == 20,
        seq!['W', '0', '0', '0', '2'].len() == 5,
        seq!['u', 'n', 'u', 's', 'e', 'd', '_', 'm', 'a', 'c', 'r', 'o'].len() == 12,
        seq!['W', '0', '0', '0', '3'].len() == 5,
        seq!['u', 'n', 'u', 's', 'e', 'd', '_', 'r', 'e', 'c', 'o', 'r', 'd', '_', 'f', 'i', 'e', 'l', 'd'].len() == 19,
        seq!['W', '0', '0', '0', '5'].len() == 5,
        seq!['m', 'u', 't', 'a', 'b', 'l', 'e', '_', 'v', 'a', 'r', 'i', 'a', 'b', 'l', 'e', '_', 'b', 'u', 'g'].len() == 20,
        seq!['P', '1', '7', '1', '1'].len() == 5,
        seq!['s', 'y', 'n', 't', 'a', 'x', '_', 'e', 'r', 'r', 'o', 'r'].len() == 12,
        seq!['W', '0', '0', '0', '4'].len() == 5,
        seq!['m', 'i', 's', 's', 'i', 'n', 'g', '_', 'c', 'o', 'm', 'm', 'a', '_', 'o', 'r', '_', 'p', 'a', 'r', 'e', 'n', 't', 'h', 'e', 's', 'i', 's'].len() == 28,
        seq!['W', '0', '0', '0', '6'].len() == 5,
        seq!['s', 't', 'a', 't', 'e', 'm', 'e', 'n', 't', '_', 'h', 'a', 's', '_', 'n', 'o', '_', 'e', 'f', 'f', 'e', 'c', 't'].len() == 23,
        seq!['W', '0', '0', '0', '7'].len() == 5,
        seq!['t', 'r', 'i', 'v', 'i', 'a', 'l', '_', 'm', 'a', 't', 'c', 'h'].len() == 13,
        seq!['W', '0', '0', '1', '0'].len() == 5,
        seq!['u', 'n', 'u', 's', 'e', 'd', '_', 'f', 'u', 'n', 'c', 't', 'i', 'o', 'n', '_', 'a', 'r', 'g'].len() == 19,
        seq!['W', '0', '0', '0', '9'].len() == 5,
        seq!['r', 'e', 'd', 'u', 'n', 'd', 'a', 'n', 't', '_', 'a', 's', 's', 'i', 'g', 'n', 'm', 'e', 'n', 't'].len() == 20,
        seq!['W', '0', '0', '0', '8'].len() == 5,
        seq!['u', 'n', 'r', 'e', 'a', 'c', 'h', 'a', 'b', 'l', 'e', '_', 't', 'e', 's', 't'].len() == 16,
        seq!['W', '0', '0', '1', '1'].len() == 5,
        seq!['a', 'p', 'p', 'l', 'i', 'c', 'a', 't', 'i', 'o', 'n', '_', 'g', 'e', 't', '_', 'e', 'n', 'v'].len() == 19,
        seq!['W', '0', '0', '1', '2'].len() == 5,
        seq!['c', 'o', 'm', 'p', 'i', 'l', 'e', '-', 'w', 'a', 'r', 'n', '-', 'm', 'i', 's', 's', 'i', 'n', 'g', '-', 's', 'p', 'e', 'c'].len() == 25,
        seq!['W', '0', '0', '1', '3'].len() == 5,
        seq!['m', 'i', 's', 's', 'p', 'e', 'l', 'l', 'e', 'd', '_', 'a', 't', 't', 'r', 'i', 'b', 'u', 't', 'e'].len() == 20,
        seq!['W', '0', '0', '1', '4'].len() == 5,
        seq!['c', 'r', 'o', 's', 's', '_', 'n', 'o', 'd', 'e', '_', 'e', 'v', 'a', 'l'].len() == 15,
        seq!['a', 'd', '-', 'h', 'o', 'c', ':', ' '].len() == 8,
        seq!['L', '1', '2', '0', '1'][0] == 'L',
        seq!['L', '1', '2', '0', '1'][2] == '2',
        seq!['L', '1', '5', '0', '0'][0] == 'L',
        seq!['L', '1', '5', '0', '0'][2] == '5',
        seq!['P', '1', '7', '0', '0'][0] == 'P',
        seq!['P', '1', '7', '0', '0'][3] == '0',
        seq!['P', '1', '7', '1', '1'][0] == 'P',
        seq!['P', '1', '7', '1', '1'][3] == '1',
        seq!['W', '0', '0', '0', '0'][0] == 'W',
        seq!['W', '0', '0', '0', '0'][3] == '0',
        seq!['W', '0', '0', '0', '0'][4] == '0',
        seq!['W', '0', '0', '0', '1'][0] == 'W',
        seq!['W', '0', '0', '0', '1'][3] == '0',
        seq!['W', '0', '0', '0', '1'][4] == '1',
        seq!['W', '0', '0', '0', '2'][0] == 'W',
        seq!['W', '0', '0', '0', '2'][3] == '0',
        seq!['W', '0', '0', '0', '2'][4] == '2',
        seq!['W', '0', '0', '0', '3'][0] == 'W',
        seq!['W', '0', '0', '0', '3'][3] == '0',
        seq!['W', '0', '0', '0', '3'][4] == '3',
        seq!['W', '0', '0', '0', '4'][0] == 'W',
        seq!['W', '0', '0', '0', '4'][3] == '0',
        seq!['W', '0', '0', '0', '4'][4] == '4',
        seq!['W', '0', '0', '0', '5'][0] == 'W',
        seq!['W', '0', '0', '0', '5'][3] == '0',
        seq!['W', '0', '0', '0', '5'][4] == '5',
        seq!['W', '0', '0', '0', '6'][0] == 'W',
        seq!['W', '0', '0', '0', '6'][3] == '0',
        seq!['W', '0', '0', '0', '6'][4] == '6',
        seq!['W', '0', '0', '0', '7'][0] == 'W',
        seq!['W', '0', '0', '0', '7'][3] == '0',
        seq!['W', '0', '0', '0', '7'][4] == '7',
        seq!['W', '0', '0', '0', '8'][0] == 'W',
        seq!['W', '0', '0', '0', '8'][3] == '0',
        seq!['W', '0', '0', '0', '8'][4] == '8',
        seq!['W', '0', '0', '0', '9'][0] == 'W',
        seq!['W', '0', '0', '0', '9'][3] == '0',
        seq!['W', '0', '0', '0', '9'][4] == '9',
        seq!['W', '0', '0', '1', '0'][0] == 'W',
        seq!['W', '0', '0', '1', '0'][3] == '1',
        seq!['W', '0', '0', '1', '0'][4] == '0',
        seq!['W', '0', '0', '1', '1'][0] == 'W',
        seq!['W', '0', '0', '1', '1'][3] == '1',
        seq!['W', '0', '0', '1', '1'][4] == '1',
        seq!['W', '0', '0', '1', '2'][0] == 'W',
        seq!['W', '0', '0', '1', '2'][3] == '1',
        seq!['W', '0', '0', '1', '2'][4] == '2',
        seq!['W', '0', '0', '1', '3'][0] == 'W',
        seq!['W', '0', '0', '1', '3'][3] == '1',
        seq!['W', '0', '0', '1', '3'][4] == '3',
        seq!['W', '0', '0', '1', '4'][0] == 'W',
        seq!['W', '0', '0', '1', '4'][3] == '1',
        seq!['W', '0', '0', '1', '4'][4] == '4',
        seq!['a', 'p', 'p', 'l', 'i', 'c', 'a', 't', 'i', 'o', 'n', '_', 'g', 'e', 't', '_', 'e', 'n', 'v'][0] == 'a',
        seq!['b', 'o', 'u', 'n', 'd', '_', 'v', 'a', 'r', '_', 'i', 'n', '_', 'p', 'a', 't', 't', 'e', 'r', 'n'][0] == 'b',
        seq!['c', 'r', 'o', 's', 's', '_', 'n', 'o', 'd', 'e', '_', 'e', 'v', 'a', 'l'][0] == 'c',
        seq!['h', 'e', 'a', 'd', '_', 'm', 'i', 's', 'm', 'a', 't', 'c', 'h'][0] == 'h',
        seq!['m', 'i', 's', 's', 'i', 'n', 'g', '_', 'm', 'o', 'd', 'u', 'l', 'e'][0] == 'm',
        seq!['m', 'i', 's', 's', 'p', 'e', 'l', 'l', 'e', 'd', '_', 'a', 't', 't', 'r', 'i', 'b', 'u', 't', 'e'][0] == 'm',
        seq!['m', 'i', 's', 's', 'p', 'e', 'l', 'l', 'e', 'd', '_', 'a', 't', 't', 'r', 'i', 'b', 'u', 't', 'e'][1] == 'i',
        seq!['m', 'o', 'd', 'u', 'l', 'e', '_', 'm', 'i', 's', 'm', 'a', 't', 'c', 'h'][0] == 'm',
        seq!['m', 'u', 't', 'a', 'b', 'l', 'e', '_', 'v', 'a', 'r', 'i', 'a', 'b', 'l', 'e', '_', 'b', 'u', 'g'][0] == 'm',
        seq!['m', 'u', 't', 'a', 'b', 'l', 'e', '_', 'v', 'a', 'r', 'i', 'a', 'b', 'l', 'e', '_', 'b', 'u', 'g'][1] == 'u',
        seq!['r', 'e', 'd', 'u', 'n', 'd', 'a', 'n', 't', '_', 'a', 's', 's', 'i', 'g', 'n', 'm', 'e', 'n', 't'][0] == 'r',
        seq!['s', 'y', 'n', 't', 'a', 'x', '_', 'e', 'r', 'r', 'o', 'r'][0] == 's',
        seq!['t', 'r', 'i', 'v', 'i', 'a', 'l', '_', 'm', 'a', 't', 'c', 'h'][0] == 't',
        seq!['u', 'n', 'u', 's', 'e', 'd', '_', 'f', 'u', 'n', 'c', 't', 'i', 'o', 'n', '_', 'a', 'r', 'g'][0] == 'u',
        seq!['u', 'n', 'u', 's', 'e', 'd', '_', 'f', 'u', 'n', 'c', 't', 'i', 'o', 'n', '_', 'a', 'r', 'g'][7] == 'f',
        seq!['u', 'n', 'u', 's', 'e', 'd', '_', 'i', 'n', 'c', 'l', 'u', 'd', 'e'][0] == 'u',
        seq!['u', 'n', 'u', 's', 'e', 'd', '_', 'm', 'a', 'c', 'r', 'o'][0] == 'u',
        seq!['u', 'n', 'u', 's', 'e', 'd', '_', 'r', 'e', 'c', 'o', 'r', 'd', '_', 'f', 'i', 'e', 'l', 'd'][0] == 'u',
        seq!['u', 'n', 'u', 's', 'e', 'd', '_', 'r', 'e', 'c', 'o', 'r', 'd', '_', 'f', 'i', 'e', 'l', 'd'][7] == 'r',
{
}

/// Reading back the short form or the label of a code gives the code.
pub proof fn lemma_code_round_trip(c: CodeView)
    requires
        round_trips(c),
    ensures
        code_from_string(code_text(c)) == Some(c),
        code_from_string(label_text(c)) == Some(c),
{
    lemma_code_text_chars();
    match c {
        CodeView::ErlangService(s) => {
            if s.len() == 0 {
                assert(s =~= Seq::<char>::empty());
                assert(fixed_code(s) == Some(CodeView::ErlangService(Seq::empty())));
                assert(code_text(c) == s);
                assert(code_from_string(s) == Some(c));
                assert(label_text(c) == s);
            } else {
                assert(is_upper_ascii(s[0]));
                if s.len() > 8 {
                    assert(s.subrange(0, 8)[0] != adhoc_prefix()[0]);
                }
                assert(adhoc_name(s) is None);
                assert(service_code(s) == Some(s));
                assert(code_text(c) == s);
                assert(code_from_string(s) == Some(c));
                assert(label_text(c) == s);
            }
        },
        CodeView::AdHoc(s) => {
            let t = adhoc_prefix() + s;
            if s.len() == 0 {
                assert(s =~= Seq::<char>::empty());
                assert(t =~= adhoc_prefix());
            } else {
                assert(t[0] == 'a' && t[1] == 'd' && t[2] == '-');
                assert(t.len() > 8);
                assert(fixed_code(t) is None);
                assert(t.subrange(0, 8) =~= adhoc_prefix());
                assert(t.subrange(8, t.len() as int) =~= s);
                assert forall|k: int| 8 <= k < t.len() implies !is_white(#[trigger] t[k]) by {
                    assert(t[k] == s[k - 8]);
                }
            }
        },
        CodeView::DefaultCodeForEnumIter => {
            assert(fixed_code(code_text(c)) == Some(c));
            assert(fixed_code(label_text(c)) == Some(c));
        },
        CodeView::HeadMismatch => {
            assert(fixed_code(code_text(c)) == Some(c));
            assert(fixed_code(label_text(c)) == Some(c));
        },
        CodeView::MissingModule => {
            assert(fixed_code(code_text(c)) == Some(c));
            assert(fixed_code(label_text(c)) == Some(c));
        },
        CodeView::ModuleMismatch => {
            assert(fixed_code(code_text(c)) == Some(c));
            assert(fixed_code(label_text(c)) == Some(c));
        },
        CodeView::UnusedInclude => {
            assert(fixed_code(code_text(c)) == Some(c));
            assert(fixed_code(label_text(c)) == Some(c));
        },
        CodeView::BoundVarInPattern => {
            assert(fixed_code(code_text(c)) == Some(c));
            assert(fixed_code(label_text(c)) == Some(c));
        },
        CodeView::UnusedMacro => {
            assert(fixed_code(code_text(c)) == Some(c));
            assert(fixed_code(label_text(c)) == Some(c));
        },
        CodeView::UnusedRecordField => {
            assert(fixed_code(code_text(c)) == Some(c));
            assert(fixed_code(label_text(c)) == Some(c));
        },
        CodeView::MutableVarBug => {
            assert(fixed_code(code_text(c)) == Some(c));
            assert(fixed_code(label_text(c)) == Some(c));
        },
        CodeView::SyntaxError => {
            assert(fixed_code(code_text(c)) == Some(c));
            assert(fixed_code(label_text(c)) == Some(c));
        },
        CodeView::Missing => {
            assert(fixed_code(code_text(c)) == Some(c));
            assert(fixed_code(label_text(c)) == Some(c));
        },
        CodeView::StatementHasNoEffect => {
            assert(fixed_code(code_text(c)) == Some(c));
            assert(fixed_code(label_text(c)) == Some(c));
        },
        CodeView::TrivialMatch => {
            assert(fixed_code(code_text(c)) == Some(c));
            assert(fixed_code(label_text(c)) == Some(c));
        },
        CodeView::UnusedFunctionArg => {
            assert(fixed_code(code_text(c)) == Some(c));
            assert(fixed_code(label_text(c)) == Some(c));
        },
        CodeView::RedundantAssignment => {
            assert(fixed_code(code_text(c)) == Some(c));
            assert(fixed_code(label_text(c)) == Some(c));
        },
        CodeView::UnreachableTest => {
            assert(fixed_code(code_text(c)) == Some(c));
            assert(fixed_code(label_text(c)) == Some(c));
        },
        CodeView::ApplicationGetEnv => {
            assert(fixed_code(code_text(c)) == Some(c));
            assert(fixed_code(label_text(c)) == Some(c));
        },
        CodeView::MissingCompileWarnMissingSpec => {
            assert(fixed_code(code_text(c)) == Some(c));
            assert(fixed_code(label_text(c)) == Some(c));
        },
        CodeView::MisspelledAttribute => {
            assert(fixed_code(code_text(c)) == Some(c));
            assert(fixed_code(label_text(c)) == Some(c));
        },
        CodeView::CrossNodeEval => {
            assert(fixed_code(code_text(c)) == Some(c));
            assert(fixed_code(label_text(c)) == Some(c));
        },
    }
}

} // verus!
