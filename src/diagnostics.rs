//! Diagnostics: construction, fix-its, suppression and filtering, and the
//! conversion of the external service's parse errors.
//!
//! Offsets into a file are character positions in its text.

use vstd::prelude::*;

use crate::code::code_text;
use crate::code::label_text;
use crate::code::CodeView;
use crate::code::DiagnosticCode;
use crate::code::Severity;
use crate::ignore::comment_contains_ignore_code;
use crate::ignore::ignores;
use crate::ignore::ignore_marker;
use crate::ignore::is_first_occurrence;
use crate::ignore::is_word;
use crate::ignore::has_word_naming;
use crate::code::round_trips;
use crate::code::lemma_code_round_trip;
use crate::code::code_from_string;
use crate::forms::first_form_before_module;
use crate::forms::form_kind_spec;
use crate::forms::form_range;
use crate::forms::forms_of;
use crate::forms::tokens_of;
use crate::forms::Form;
use crate::forms::missing_seps;
use crate::forms::reports_gap;
use crate::forms::reports_unused;
use crate::forms::unused_fields;
use crate::forms::token_range;
use crate::forms::FormKind;
use crate::forms::no_module_message;
use crate::forms::form_kinds;
use crate::forms::form_missing_separator_diagnostics;
use crate::forms::lemma_first_form_in_range;
use crate::forms::lemma_token;
use crate::forms::lemma_tokens_ordered;
use crate::forms::missing_sep_ok;
use crate::forms::no_module_definition_diagnostic;
use crate::forms::redundant_assignment;
use crate::forms::redundant_ok;
use crate::forms::trivial_match;
use crate::forms::trivial_ok;
use crate::forms::split_forms;
use crate::forms::tokenize;
use crate::forms::unused_field_ok;
use crate::forms::unused_record_field;
use crate::text::chars_of;
use crate::text::string_of;
use crate::text::sub_chars;

verus! {

#[derive(Clone, Copy, Debug, PartialEq, Eq, Hash, Structural)]
pub struct FileId(pub u32);

#[derive(Clone, Copy, Debug, PartialEq, Eq, Structural)]
pub struct TextRange {
    pub start: u32,
    pub end: u32,
}

/// Replace the text in `delete` by `insert`.
#[derive(Clone, Debug)]
pub struct TextEdit {
    pub delete: TextRange,
    pub insert: String,
}

/// A proposed change: edits to the diagnostic's file.
#[derive(Clone, Debug)]
pub struct Assist {
    pub id: String,
    pub label: String,
    pub target: TextRange,
    pub edits: Vec<TextEdit>,
}

#[derive(Clone, Debug)]
pub struct RelatedInformation {
    pub range: TextRange,
    pub message: String,
}

#[derive(Clone, Debug)]
pub struct Diagnostic {
    pub message: String,
    pub range: TextRange,
    pub severity: Severity,
    pub experimental: bool,
    pub fixes: Option<Vec<Assist>>,
    pub related_info: Option<Vec<RelatedInformation>>,
    pub code: DiagnosticCode,
}

/// The comment that the ignore fix of a code inserts.
pub open spec fn ignore_comment_text(c: CodeView) -> Seq<char> {
    seq!['%', ' ', 'e', 'l', 'p', ':', 'i', 'g', 'n', 'o', 'r', 'e', ' '] + code_text(c) + seq![
        ' ',
        '(',
    ] + label_text(c) + seq![')', '\n']
}

pub open spec fn fixes_seq(f: Option<Vec<Assist>>) -> Seq<Assist> {
    match f {
        Some(v) => v@,
        None => Seq::empty(),
    }
}

impl Diagnostic {
    pub fn new(code: DiagnosticCode, message: String, range: TextRange) -> (r: Diagnostic)
        ensures
            r.code == code,
            r.message == message,
            r.range == range,
            r.severity == Severity::Error,
            !r.experimental,
            r.fixes is None,
            r.related_info is None,
    {
        Diagnostic {
            code,
            message,
            range,
            severity: Severity::Error,
            experimental: false,
            fixes: None,
            related_info: None,
        }
    }

    pub fn with_related(self, related_info: Option<Vec<RelatedInformation>>) -> (r: Diagnostic)
        ensures
            r.related_info == related_info,
            r.code == self.code,
            r.message == self.message,
            r.range == self.range,
            r.severity == self.severity,
            r.experimental == self.experimental,
            r.fixes == self.fixes,
    {
        let mut d = self;
        d.related_info = related_info;
        d
    }

    pub fn error(code: DiagnosticCode, range: TextRange, message: String) -> (r: Diagnostic)
        ensures
            r.code == code,
            r.message == message,
            r.range == range,
            r.severity == Severity::Error,
            !r.experimental,
            r.fixes is None,
            r.related_info is None,
    {
        Self::new(code, message, range).severity(Severity::Error)
    }

    pub fn warning(code: DiagnosticCode, range: TextRange, message: String) -> (r: Diagnostic)
        ensures
            r.code == code,
            r.message == message,
            r.range == range,
            r.severity == Severity::Warning,
            !r.experimental,
            r.fixes is None,
            r.related_info is None,
    {
        Self::new(code, message, range).severity(Severity::Warning)
    }

    pub fn severity(self, severity: Severity) -> (r: Diagnostic)
        ensures
            r.severity == severity,
            r.code == self.code,
            r.message == self.message,
            r.range == self.range,
            r.experimental == self.experimental,
            r.fixes == self.fixes,
            r.related_info == self.related_info,
    {
        let mut d = self;
        d.severity = severity;
        d
    }

    pub fn with_fixes(self, fixes: Option<Vec<Assist>>) -> (r: Diagnostic)
        ensures
            r.fixes == fixes,
            r.code == self.code,
            r.message == self.message,
            r.range == self.range,
            r.severity == self.severity,
            r.experimental == self.experimental,
            r.related_info == self.related_info,
    {
        let mut d = self;
        d.fixes = fixes;
        d
    }

    pub fn experimental(self) -> (r: Diagnostic)
        ensures
            r.experimental,
            r.code == self.code,
            r.message == self.message,
            r.range == self.range,
            r.severity == self.severity,
            r.fixes == self.fixes,
            r.related_info == self.related_info,
    {
        let mut d = self;
        d.experimental = true;
        d
    }

    /// Adds, after the other fixes, one that inserts
    /// `% elp:ignore CODE (LABEL)` and a newline at the start of the range.
    pub fn with_ignore_fix(self) -> (r: Diagnostic)
        ensures
            r.code == self.code,
            r.message == self.message,
            r.range == self.range,
            r.severity == self.severity,
            r.experimental == self.experimental,
            r.related_info == self.related_info,
            r.fixes is Some,
            fixes_seq(r.fixes).len() == fixes_seq(self.fixes).len() + 1,
            fixes_seq(r.fixes).drop_last() == fixes_seq(self.fixes),
            fixes_seq(r.fixes).last().target == self.range,
            fixes_seq(r.fixes).last().id@ == seq!['i', 'g', 'n', 'o', 'r', 'e', '_', 'p', 'r', 'o', 'b', 'l', 'e', 'm'],
            fixes_seq(r.fixes).last().label@ == seq!['I', 'g', 'n', 'o', 'r', 'e', ' ', 'p', 'r', 'o', 'b', 'l', 'e', 'm'],
            fixes_seq(r.fixes).last().edits@.len() == 1,
            fixes_seq(r.fixes).last().edits@[0].delete == (TextRange {
                start: self.range.start,
                end: self.range.start,
            }),
            fixes_seq(r.fixes).last().edits@[0].insert@ == ignore_comment_text(self.code@),
    {
        let mut d = self;
        let mut text = String::from_str("% elp:ignore ");
        let code = d.code.as_code();
        text.append(code.as_str());
        text.append(" (");
        let label = d.code.as_label();
        text.append(label.as_str());
        text.append(")\n");
        proof {
            reveal_strlit("% elp:ignore ");
            reveal_strlit(" (");
            reveal_strlit(")\n");
        }
        assert(text@ =~= ignore_comment_text(d.code@));
        let edit = TextEdit {
            delete: TextRange { start: d.range.start, end: d.range.start },
            insert: text,
        };
        let mut edits: Vec<TextEdit> = Vec::new();
        edits.push(edit);
        proof {
            reveal_strlit("ignore_problem");
            reveal_strlit("Ignore problem");
        }
        let id = String::from_str("ignore_problem");
        let label = String::from_str("Ignore problem");
        assert(id@ =~= seq!['i', 'g', 'n', 'o', 'r', 'e', '_', 'p', 'r', 'o', 'b', 'l', 'e', 'm']);
        assert(label@ =~= seq!['I', 'g', 'n', 'o', 'r', 'e', ' ', 'p', 'r', 'o', 'b', 'l', 'e', 'm']);
        let fix = Assist {
            id,
            label,
            target: d.range,
            edits,
        };
        let fixes = match d.fixes {
            Some(f) => {
                let mut f = f;
                f.push(fix);
                f
            },
            None => {
                let mut f: Vec<Assist> = Vec::new();
                f.push(fix);
                f
            },
        };
        assert(fixes@.drop_last() =~= fixes_seq(self.fixes));
        d.fixes = Some(fixes);
        d
    }

    /// Whether a comment on the line above the start of the range ignores
    /// this diagnostic's code.
    pub fn should_be_ignored(&self, text: &[char]) -> (r: bool)
        ensures
            r == ignored_at(text@, self.range.start as int, self.code),
    {
        match prev_line_comment_text(text, self.range.start) {
            Some(comment) => comment_contains_ignore_code(comment.as_str(), &self.code),
            None => false,
        }
    }
}

// ---------------------------------------------------------------------
// Lines and comments.

/// The start of the line holding position `off`.
pub open spec fn line_start(t: Seq<char>, off: int) -> int
    decreases off,
{
    if off <= 0 {
        0
    } else if t[off - 1] == '\n' {
        off
    } else {
        line_start(t, off - 1)
    }
}

/// The first `%` in `t[from..to]`.
pub open spec fn first_percent(t: Seq<char>, from: int, to: int) -> Option<int>
    decreases to - from,
{
    if from >= to {
        None
    } else if t[from] == '%' {
        Some(from)
    } else {
        first_percent(t, from + 1, to)
    }
}

pub open spec fn clamp(t: Seq<char>, off: int) -> int {
    if off > t.len() {
        t.len() as int
    } else {
        off
    }
}

/// The comment on the line above the one holding `off`: from its first `%`
/// to the end of that line.
pub open spec fn prev_line_comment(t: Seq<char>, off: int) -> Option<Seq<char>> {
    let ls = line_start(t, clamp(t, off));
    if ls <= 0 {
        None
    } else {
        match first_percent(t, line_start(t, ls - 1), ls - 1) {
            Some(p) => Some(t.subrange(p, ls - 1)),
            None => None,
        }
    }
}

/// A comment on the line above position `off` ignores `code`.
pub open spec fn ignored_at(t: Seq<char>, off: int, code: DiagnosticCode) -> bool {
    match prev_line_comment(t, off) {
        Some(c) => ignores(c, code),
        None => false,
    }
}

fn line_start_of(t: &[char], off: usize) -> (r: usize)
    requires
        off <= t@.len(),
    ensures
        r as int == line_start(t@, off as int),
        r <= off,
{
    let mut i: usize = off;
    while i > 0 && t[i - 1] != '\n'
        invariant
            i <= off <= t@.len(),
            line_start(t@, i as int) == line_start(t@, off as int),
        decreases i,
    {
        i = i - 1;
    }
    i
}

fn first_percent_in(t: &[char], from: usize, to: usize) -> (r: Option<usize>)
    requires
        from <= to <= t@.len(),
    ensures
        match r {
            Some(p) => first_percent(t@, from as int, to as int) == Some(p as int) && from <= p < to,
            None => first_percent(t@, from as int, to as int) is None,
        },
    decreases to - from,
{
    let mut i: usize = from;
    while i < to && t[i] != '%'
        invariant
            from <= i <= to,
            to <= t@.len(),
            first_percent(t@, i as int, to as int) == first_percent(t@, from as int, to as int),
        decreases to - i,
    {
        i = i + 1;
    }
    if i < to {
        Some(i)
    } else {
        None
    }
}

/// The text of the comment on the line above the one holding `offset`.
fn prev_line_comment_text(t: &[char], offset: u32) -> (r: Option<String>)
    ensures
        match r {
            Some(s) => prev_line_comment(t@, offset as int) == Some(s@),
            None => prev_line_comment(t@, offset as int) is None,
        },
{
    let off: usize = if (offset as usize) > t.len() {
        t.len()
    } else {
        offset as usize
    };
    let ls = line_start_of(t, off);
    if ls == 0 {
        return None;
    }
    let ps = line_start_of(t, ls - 1);
    match first_percent_in(t, ps, ls - 1) {
        Some(p) => {
            let cs = sub_chars(t, p, ls - 1);
            Some(string_of(cs.as_slice()))
        },
        None => None,
    }
}

// ---------------------------------------------------------------------
// Filtering.

/// Which diagnostics a run reports.
pub struct DiagnosticsConfig {
    pub disable_experimental: bool,
    pub disabled: Vec<DiagnosticCode>,
}

impl DiagnosticsConfig {
    pub open spec fn disabled(&self) -> Seq<DiagnosticCode> {
        self.disabled@
    }

    pub open spec fn is_disabled(&self, c: DiagnosticCode) -> bool {
        exists|k: int| 0 <= k < self.disabled().len() && #[trigger] self.disabled()[k]@ == c@
    }

    pub fn new(disable_experimental: bool, disabled: Vec<DiagnosticCode>) -> (r: DiagnosticsConfig)
        ensures
            r.disable_experimental == disable_experimental,
            r.disabled() == disabled@,
    {
        DiagnosticsConfig { disable_experimental, disabled }
    }

    pub fn default() -> (r: DiagnosticsConfig)
        ensures
            !r.disable_experimental,
            r.disabled().len() == 0,
    {
        DiagnosticsConfig { disable_experimental: false, disabled: Vec::new() }
    }

    pub fn disable(self, code: DiagnosticCode) -> (r: DiagnosticsConfig)
        ensures
            r.disable_experimental == self.disable_experimental,
            r.disabled() == self.disabled().push(code),
    {
        let mut c = self;
        c.disabled.push(code);
        c
    }

    fn disables(&self, code: &DiagnosticCode) -> (r: bool)
        ensures
            r == self.is_disabled(*code),
    {
        let mut i: usize = 0;
        while i < self.disabled.len()
            invariant
                i <= self.disabled@.len(),
                forall|k: int| 0 <= k < i ==> #[trigger] self.disabled@[k]@ != code@,
            decreases self.disabled@.len() - i,
        {
            if self.disabled[i] == *code {
                assert(self.disabled()[i as int]@ == code@);
                return true;
            }
            i = i + 1;
        }
        false
    }
}

/// A diagnostic survives the configuration and the ignore comments of `t`.
pub open spec fn is_reported(config: DiagnosticsConfig, t: Seq<char>, d: Diagnostic) -> bool {
    &&& !config.is_disabled(d.code)
    &&& !(config.disable_experimental && d.experimental)
    &&& !ignored_at(t, d.range.start as int, d.code)
}

/// Keeps, in order, the diagnostics that are not disabled, not experimental
/// when experimental ones are off, and not ignored by a comment in `text`.
pub fn retain_reported(diags: Vec<Diagnostic>, config: &DiagnosticsConfig, text: &[char]) -> (r: Vec<
    Diagnostic,
>)
    ensures
        r@ == diags@.filter(|d: Diagnostic| is_reported(*config, text@, d)),
{
    let ghost orig = diags@;
    let ghost f = |d: Diagnostic| is_reported(*config, text@, d);
    let n = diags.len();
    let mut rest = diags;
    let mut out: Vec<Diagnostic> = Vec::new();
    let mut i: usize = 0;
    assert(orig.subrange(0, 0).filter(f) =~= Seq::<Diagnostic>::empty());
    assert(orig.subrange(0, orig.len() as int) =~= orig);
    while rest.len() > 0
        invariant
            i <= orig.len(),
            orig.len() == n,
            rest@ == orig.subrange(i as int, orig.len() as int),
            out@ == orig.subrange(0, i as int).filter(f),
            f == (|d: Diagnostic| is_reported(*config, text@, d)),
        decreases rest.len(),
    {
        let d = rest.remove(0);
        assert(d == orig[i as int]);
        let keep = !config.disables(&d.code) && !(config.disable_experimental && d.experimental)
            && !d.should_be_ignored(text);
        assert(orig.subrange(0, i + 1) =~= orig.subrange(0, i as int).push(d));
        proof {
            orig.subrange(0, i as int).lemma_filter_push(d, f);
        }
        if keep {
            out.push(d);
        }
        i = i + 1;
        assert(rest@ =~= orig.subrange(i as int, orig.len() as int));
    }
    assert(orig.subrange(0, i as int) =~= orig);
    out
}

/// Keeps, in order, the diagnostics with the given code.
pub fn filter_diagnostics(diagnostics: Vec<Diagnostic>, code: &DiagnosticCode) -> (r: Vec<Diagnostic>)
    ensures
        r@ == diagnostics@.filter(|d: Diagnostic| d.code@ == code@),
{
    let ghost orig = diagnostics@;
    let ghost f = |d: Diagnostic| d.code@ == code@;
    let n = diagnostics.len();
    let mut rest = diagnostics;
    let mut out: Vec<Diagnostic> = Vec::new();
    let mut i: usize = 0;
    assert(orig.subrange(0, 0).filter(f) =~= Seq::<Diagnostic>::empty());
    assert(orig.subrange(0, orig.len() as int) =~= orig);
    while rest.len() > 0
        invariant
            i <= orig.len(),
            orig.len() == n,
            rest@ == orig.subrange(i as int, orig.len() as int),
            out@ == orig.subrange(0, i as int).filter(f),
            f == (|d: Diagnostic| d.code@ == code@),
        decreases rest.len(),
    {
        let d = rest.remove(0);
        assert(d == orig[i as int]);
        assert(orig.subrange(0, i + 1) =~= orig.subrange(0, i as int).push(d));
        proof {
            orig.subrange(0, i as int).lemma_filter_push(d, f);
        }
        if d.code == *code {
            out.push(d);
        }
        i = i + 1;
        assert(rest@ =~= orig.subrange(i as int, orig.len() as int));
    }
    assert(orig.subrange(0, i as int) =~= orig);
    out
}

/// Diagnostics whose suppression comment names their code or label are not
/// reported.
pub proof fn lemma_ignored_not_reported(
    config: DiagnosticsConfig,
    t: Seq<char>,
    diags: Seq<Diagnostic>,
    d: Diagnostic,
)
    requires
        ignored_at(t, d.range.start as int, d.code),
    ensures
        !diags.filter(|x: Diagnostic| is_reported(config, t, x)).contains(d),
{
    let f = |x: Diagnostic| is_reported(config, t, x);
    if diags.filter(f).contains(d) {
        let k = choose|k: int| 0 <= k < diags.filter(f).len() && diags.filter(f)[k] == d;
        diags.filter_lemma(f);
        assert(f(diags.filter(f)[k]));
    }
}

// ---------------------------------------------------------------------
// Printing.

pub open spec fn digit_char(d: nat) -> char {
    if d == 0 {
        '0'
    } else if d == 1 {
        '1'
    } else if d == 2 {
        '2'
    } else if d == 3 {
        '3'
    } else if d == 4 {
        '4'
    } else if d == 5 {
        '5'
    } else if d == 6 {
        '6'
    } else if d == 7 {
        '7'
    } else if d == 8 {
        '8'
    } else {
        '9'
    }
}

/// The decimal digits of `n`.
pub open spec fn decimal(n: nat) -> Seq<char>
    decreases n,
{
    if n < 10 {
        seq![digit_char(n)]
    } else {
        decimal(n / 10).push(digit_char(n % 10))
    }
}

pub fn decimal_chars(n: u32) -> (r: Vec<char>)
    ensures
        r@ == decimal(n as nat),
    decreases n,
{
    let d = n % 10;
    let c = if d == 0 {
        '0'
    } else if d == 1 {
        '1'
    } else if d == 2 {
        '2'
    } else if d == 3 {
        '3'
    } else if d == 4 {
        '4'
    } else if d == 5 {
        '5'
    } else if d == 6 {
        '6'
    } else if d == 7 {
        '7'
    } else if d == 8 {
        '8'
    } else {
        '9'
    };
    if n < 10 {
        let mut v: Vec<char> = Vec::new();
        v.push(c);
        assert(v@ =~= decimal(n as nat));
        v
    } else {
        let mut v = decimal_chars(n / 10);
        v.push(c);
        v
    }
}

pub open spec fn severity_name(s: Severity) -> Seq<char> {
    match s {
        Severity::Error => seq!['E', 'r', 'r', 'o', 'r'],
        Severity::Warning => seq!['W', 'a', 'r', 'n', 'i', 'n', 'g'],
        Severity::WeakWarning => seq!['W', 'e', 'a', 'k', 'W', 'a', 'r', 'n', 'i', 'n', 'g'],
    }
}

/// The column of position `off`: its distance from the start of its line.
pub open spec fn column_of(t: Seq<char>, off: int) -> int {
    clamp(t, off) - line_start(t, clamp(t, off))
}

/// `line:col-line:col::[Severity] [CODE] message`, lines and columns from 0.
pub open spec fn printed(t: Seq<char>, d: Diagnostic) -> Seq<char> {
    decimal(crate::codemod::line_of(t, d.range.start as int) as nat) + seq![':'] + decimal(
        column_of(t, d.range.start as int) as nat,
    ) + seq!['-'] + decimal(crate::codemod::line_of(t, d.range.end as int) as nat) + seq![':']
        + decimal(column_of(t, d.range.end as int) as nat) + seq![':', ':', '['] + severity_name(
        d.severity,
    ) + seq![']', ' ', '['] + code_text(d.code@) + seq![']', ' '] + d.message@
}

fn append_chars(v: &mut Vec<char>, s: &[char])
    ensures
        final(v)@ == old(v)@ + s@,
{
    let mut i: usize = 0;
    while i < s.len()
        invariant
            i <= s@.len(),
            v@ == old(v)@ + s@.subrange(0, i as int),
        decreases s@.len() - i,
    {
        v.push(s[i]);
        assert(v@ =~= old(v)@ + s@.subrange(0, i + 1));
        i = i + 1;
    }
    assert(s@.subrange(0, s@.len() as int) =~= s@);
}

fn column_number(t: &[char], offset: u32) -> (r: u32)
    ensures
        r as int == column_of(t@, offset as int),
{
    let off: usize = if (offset as usize) > t.len() {
        t.len()
    } else {
        offset as usize
    };
    let ls = line_start_of(t, off);
    (off - ls) as u32
}

impl Diagnostic {
    /// The diagnostic as one line of text, positions taken in `text`.
    pub fn print(&self, text: &[char]) -> (r: String)
        requires
            text@.len() <= u32::MAX,
        ensures
            r@ == printed(text@, *self),
    {
        let mut out: Vec<char> = Vec::new();
        let l1 = crate::codemod::line_number(text, self.range.start);
        let c1 = column_number(text, self.range.start);
        let l2 = crate::codemod::line_number(text, self.range.end);
        let c2 = column_number(text, self.range.end);
        append_chars(&mut out, decimal_chars(l1).as_slice());
        out.push(':');
        append_chars(&mut out, decimal_chars(c1).as_slice());
        out.push('-');
        append_chars(&mut out, decimal_chars(l2).as_slice());
        out.push(':');
        append_chars(&mut out, decimal_chars(c2).as_slice());
        append_chars(&mut out, &[':', ':', '[']);
        let sev: &[char] = match self.severity {
            Severity::Error => &['E', 'r', 'r', 'o', 'r'],
            Severity::Warning => &['W', 'a', 'r', 'n', 'i', 'n', 'g'],
            Severity::WeakWarning => &['W', 'e', 'a', 'k', 'W', 'a', 'r', 'n', 'i', 'n', 'g'],
        };
        assert(sev@ =~= severity_name(self.severity));
        append_chars(&mut out, sev);
        append_chars(&mut out, &[']', ' ', '[']);
        let code = self.code.as_code();
        append_chars(&mut out, crate::text::chars_of(code.as_str()).as_slice());
        append_chars(&mut out, &[']', ' ']);
        append_chars(&mut out, crate::text::chars_of(self.message.as_str()).as_slice());
        assert(out@ =~= printed(text@, *self));
        string_of(out.as_slice())
    }
}

/// The exit status of a command: 0 on success, 101 on failure.
pub fn handle_res<E>(result: &Result<(), E>) -> (r: i32)
    ensures
        r == if result is Ok {
            0i32
        } else {
            101i32
        },
{
    match result {
        Ok(()) => 0,
        Err(_) => 101,
    }
}

// ---------------------------------------------------------------------
// Ordering.

/// `a` comes no later than `b` in lexicographic order.
pub open spec fn seq_le(a: Seq<char>, b: Seq<char>) -> bool
    decreases a.len(),
{
    if a.len() == 0 {
        true
    } else if b.len() == 0 {
        false
    } else if (a[0] as u32) < (b[0] as u32) {
        true
    } else if (a[0] as u32) > (b[0] as u32) {
        false
    } else {
        seq_le(a.drop_first(), b.drop_first())
    }
}

proof fn lemma_seq_le_total(a: Seq<char>, b: Seq<char>)
    ensures
        seq_le(a, b) || seq_le(b, a),
    decreases a.len(),
{
    if a.len() > 0 && b.len() > 0 && (a[0] as u32) == (b[0] as u32) {
        lemma_seq_le_total(a.drop_first(), b.drop_first());
    }
}

proof fn lemma_seq_le_trans(a: Seq<char>, b: Seq<char>, c: Seq<char>)
    requires
        seq_le(a, b),
        seq_le(b, c),
    ensures
        seq_le(a, c),
    decreases a.len(),
{
    if a.len() > 0 && b.len() > 0 && c.len() > 0 && (a[0] as u32) == (b[0] as u32) && (b[0] as u32) == (c[0] as u32) {
        lemma_seq_le_trans(a.drop_first(), b.drop_first(), c.drop_first());
    }
}

/// `a` comes no later than `b`: by the start of the range, then by code.
pub open spec fn position_le(a: Diagnostic, b: Diagnostic) -> bool {
    a.range.start < b.range.start || (a.range.start == b.range.start && seq_le(
        code_text(a.code@),
        code_text(b.code@),
    ))
}

proof fn lemma_position_le(a: Diagnostic, b: Diagnostic, c: Diagnostic)
    ensures
        position_le(a, b) || position_le(b, a),
        position_le(a, b) && position_le(b, c) ==> position_le(a, c),
{
    lemma_seq_le_total(code_text(a.code@), code_text(b.code@));
    if position_le(a, b) && position_le(b, c) && a.range.start == c.range.start {
        lemma_seq_le_trans(code_text(a.code@), code_text(b.code@), code_text(c.code@));
    }
}

/// Ordered by range start, then by code.
pub open spec fn sorted_by_position(ds: Seq<Diagnostic>) -> bool {
    forall|a: int, b: int|
        #![trigger ds[a], ds[b]]
        0 <= a < b < ds.len() ==> position_le(ds[a], ds[b])
}

fn str_le(a: &str, b: &str) -> (r: bool)
    ensures
        r == seq_le(a@, b@),
{
    let n = a.unicode_len();
    let m = b.unicode_len();
    let mut i: usize = 0;
    assert(a@.subrange(0, n as int) =~= a@);
    assert(b@.subrange(0, m as int) =~= b@);
    while i < n && i < m
        invariant
            n == a@.len(),
            m == b@.len(),
            i <= n,
            i <= m,
            seq_le(a@, b@) == seq_le(a@.subrange(i as int, n as int), b@.subrange(i as int, m as int)),
        decreases n - i,
    {
        let x = a.get_char(i);
        let y = b.get_char(i);
        let ghost sa = a@.subrange(i as int, n as int);
        let ghost sb = b@.subrange(i as int, m as int);
        assert(sa[0] == x && sb[0] == y);
        if (x as u32) < (y as u32) {
            return true;
        }
        if (x as u32) > (y as u32) {
            return false;
        }
        assert(sa.drop_first() =~= a@.subrange(i + 1, n as int));
        assert(sb.drop_first() =~= b@.subrange(i + 1, m as int));
        i = i + 1;
    }
    i == n
}

/// Whether `a` comes no later than `b`.
fn position_le_exec(a: &Diagnostic, b: &Diagnostic) -> (r: bool)
    ensures
        r == position_le(*a, *b),
{
    if a.range.start != b.range.start {
        return a.range.start < b.range.start;
    }
    let ca = a.code.as_code();
    let cb = b.code.as_code();
    str_le(ca.as_str(), cb.as_str())
}

/// The diagnostics ordered by the start of their range, then by code;
/// diagnostics that tie on both keep their order.
pub fn sort_diagnostics(ds: Vec<Diagnostic>) -> (r: Vec<Diagnostic>)
    ensures
        sorted_by_position(r@),
        r@.to_multiset() == ds@.to_multiset(),
{
    broadcast use vstd::seq_lib::group_to_multiset_ensures;

    let ghost orig = ds@;
    let n = ds.len();
    let mut rest = ds;
    let mut out: Vec<Diagnostic> = Vec::new();
    let mut i: usize = 0;
    assert(orig.subrange(0, 0) =~= Seq::<Diagnostic>::empty());
    while rest.len() > 0
        invariant
            i <= orig.len(),
            orig.len() == n,
            rest@ == orig.subrange(i as int, orig.len() as int),
            sorted_by_position(out@),
            out@.to_multiset() == orig.subrange(0, i as int).to_multiset(),
        decreases rest.len(),
    {
        let d = rest.remove(0);
        assert(d == orig[i as int]);
        let mut p: usize = 0;
        while p < out.len() && position_le_exec(&out[p], &d)
            invariant
                p <= out@.len(),
                forall|k: int| 0 <= k < p ==> position_le(#[trigger] out@[k], d),
            decreases out@.len() - p,
        {
            p = p + 1;
        }
        let ghost before = out@;
        out.insert(p, d);
        proof {
            vstd::seq_lib::to_multiset_insert(before, p as int, d);
            assert(out@ == before.insert(p as int, d));
            assert(orig.subrange(0, i + 1) =~= orig.subrange(0, i as int).push(d));
            orig.subrange(0, i as int).to_multiset_ensures();
            assert(orig.subrange(0, i as int).push(d).to_multiset() =~= orig.subrange(0, i as int).to_multiset().insert(d));
            assert(out@.to_multiset() == orig.subrange(0, i + 1).to_multiset());
            if p < before.len() {
                assert(!position_le(before[p as int], d));
                lemma_position_le(d, before[p as int], d);
            }
            assert forall|a: int, b: int|
                #![trigger out@[a], out@[b]]
                0 <= a < b < out@.len() implies position_le(out@[a], out@[b]) by {
                if b < p {
                    assert(out@[a] == before[a] && out@[b] == before[b]);
                } else if b == p {
                    assert(out@[a] == before[a]);
                } else if a < p {
                    assert(out@[a] == before[a] && out@[b] == before[b - 1]);
                } else if a == p {
                    assert(out@[b] == before[b - 1]);
                    if b - 1 > p {
                        assert(position_le(before[p as int], before[b - 1]));
                        lemma_position_le(d, before[p as int], before[b - 1]);
                    }
                } else {
                    assert(out@[a] == before[a - 1] && out@[b] == before[b - 1]);
                }
            }
        }
        i = i + 1;
        assert(rest@ =~= orig.subrange(i as int, orig.len() as int));
    }
    assert(orig.subrange(0, i as int) =~= orig);
    out
}

/// A diagnostic whose code reads back from its short form and label is not
/// reported when the comment on the line above its start holds
/// `% elp:ignore` followed by a word that is that short form or label.
pub proof fn lemma_ignore_comment_suppresses(
    config: DiagnosticsConfig,
    t: Seq<char>,
    diags: Seq<Diagnostic>,
    d: Diagnostic,
    comment: Seq<char>,
    i: int,
    a: int,
    b: int,
)
    requires
        round_trips(d.code@),
        prev_line_comment(t, d.range.start as int) == Some(comment),
        is_first_occurrence(comment, ignore_marker(), i),
        is_word(comment.subrange(i, comment.len() as int), a, b),
        comment.subrange(i, comment.len() as int).subrange(a, b) == code_text(d.code@)
            || comment.subrange(i, comment.len() as int).subrange(a, b) == label_text(d.code@),
    ensures
        !diags.filter(|x: Diagnostic| is_reported(config, t, x)).contains(d),
{
    lemma_code_round_trip(d.code@);
    let rest = comment.subrange(i, comment.len() as int);
    assert(code_from_string(rest.subrange(a, b)) == Some(d.code@));
    assert(has_word_naming(rest, d.code));
    assert(ignores(comment, d.code));
    lemma_ignored_not_reported(config, t, diags, d);
}

/// The kinds of the forms of a text.
pub open spec fn kinds_of(t: Seq<char>) -> Seq<FormKind> {
    forms_of(tokens_of(t)).map_values(|f: Form| form_kind_spec(t, tokens_of(t), f))
}

/// The range of the first form of a module that is neither a directive
/// nor preceded by the module declaration.
pub open spec fn missing_module_range(t: Seq<char>) -> Option<(int, int)> {
    match first_form_before_module(kinds_of(t)) {
        Some(k) => Some(form_range(tokens_of(t), forms_of(tokens_of(t))[k])),
        None => None,
    }
}

/// The missing separators of a text.
pub open spec fn seps_of(t: Seq<char>) -> Seq<(int, int, bool)> {
    missing_seps(t, tokens_of(t), forms_of(tokens_of(t)), kinds_of(t), forms_of(tokens_of(t)).len() as int)
}

/// The declared record fields of a text that nothing uses.
pub open spec fn unused_of(t: Seq<char>) -> Seq<crate::forms::FieldRef> {
    unused_fields(t, tokens_of(t), forms_of(tokens_of(t)), kinds_of(t))
}

/// The missing-module diagnostic on range `(s, e)`.
pub open spec fn is_missing_module_at(d: Diagnostic, s: int, e: int) -> bool {
    &&& d.code@ == CodeView::MissingModule
    &&& d.range.start == s
    &&& d.range.end == e
    &&& d.severity == Severity::Error
    &&& d.message@ == no_module_message()
    &&& !d.experimental
}

/// A missing-module diagnostic stands only first, and only where allowed.
pub open spec fn missing_module_only_first(res: Seq<Diagnostic>, allowed: bool) -> bool {
    forall|k: int|
        0 <= k < res.len() && (#[trigger] res[k]).code@ == CodeView::MissingModule ==> k == 0 && allowed
}

/// The diagnostics of a file computed from its forms: a missing module
/// declaration (for a module, not a header), then missing separators;
/// leaving out those that `config` disables and those ignored by a comment.
#[verifier::rlimit(100)]
pub fn diagnostics(text: &str, is_module: bool, config: &DiagnosticsConfig) -> (r: Vec<
    Diagnostic,
>)
    requires
        text@.len() <= u32::MAX,
    ensures
        forall|k: int| 0 <= k < r@.len() ==> is_reported(*config, text@, #[trigger] r@[k]),
        forall|k: int|
            0 <= k < r@.len() ==> (#[trigger] r@[k]).range.start <= r@[k].range.end <= text@.len(),
        sorted_by_position(r@),
        match missing_module_range(text@) {
            Some((s, e)) => is_module && !config.is_disabled(DiagnosticCode::MissingModule)
                && !ignored_at(text@, s, DiagnosticCode::MissingModule) ==> exists|j: int|
                0 <= j < r@.len() && is_missing_module_at(#[trigger] r@[j], s, e),
            None => true,
        },
        forall|j: int|
            0 <= j < seps_of(text@).len() && !config.is_disabled(DiagnosticCode::Missing)
                && !ignored_at(text@, (#[trigger] seps_of(text@)[j]).0, DiagnosticCode::Missing)
                ==> exists|i: int| 0 <= i < r@.len() && reports_gap(r@[i], seps_of(text@)[j]),
        forall|j: int|
            0 <= j < unused_of(text@).len() && is_module && !config.is_disabled(
                DiagnosticCode::UnusedRecordField,
            ) && !ignored_at(
                text@,
                token_range(tokens_of(text@)[(#[trigger] unused_of(text@)[j]).field as int]).start as int,
                DiagnosticCode::UnusedRecordField,
            ) ==> exists|i: int|
                0 <= i < r@.len() && reports_unused(text@, tokens_of(text@), r@[i], unused_of(text@)[j]),
        !is_module || missing_module_range(text@) is None ==> forall|j: int|
            0 <= j < r@.len() ==> (#[trigger] r@[j]).code@ != CodeView::MissingModule,
{
    let t = chars_of(text);
    let toks = tokenize(t.as_slice());
    let forms = split_forms(&toks);
    let kinds = form_kinds(t.as_slice(), &toks, &forms);
    proof {
        assert(kinds@ =~= kinds_of(text@));
    }
    let mut res: Vec<Diagnostic> = Vec::new();
    if is_module {
        no_module_definition_diagnostic(&mut res, t.as_slice(), &toks, &forms, &kinds);
        proof {
            if res@.len() > 0 {
                assert(is_missing_module_at(res@[0], missing_module_range(text@)->Some_0.0, missing_module_range(text@)->Some_0.1));
                let k = first_form_before_module(kinds@)->Some_0;
                lemma_first_form_in_range(kinds@);
                assert(forms@[k].first <= forms@[k].last < toks@.len());
                lemma_token(t@, toks@, forms@[k].first as int);
                lemma_token(t@, toks@, forms@[k].last as int);
                if forms@[k].first < forms@[k].last {
                    lemma_tokens_ordered(t@, toks@, forms@[k].first as int, forms@[k].last as int);
                }
            }
        }
    }
    let ghost allowed = is_module && missing_module_range(text@) is Some;
    assert(missing_module_only_first(res@, allowed));
    assert(allowed ==> res@.len() > 0 && is_missing_module_at(
        res@[0],
        missing_module_range(text@)->Some_0.0,
        missing_module_range(text@)->Some_0.1,
    ));
    let ghost before = res@;
    let mut seps = form_missing_separator_diagnostics(t.as_slice(), &toks, &forms, &kinds);
    let ghost sep_base = res@.len();
    let ghost sepv = seps@;
    res.append(&mut seps);
    let ghost gaps = seps_of(text@);
    proof {
        assert(gaps == missing_seps(t@, toks@, forms@, kinds@, forms@.len() as int));
        assert forall|j: int| 0 <= j < gaps.len() implies reports_gap(#[trigger] res@[sep_base + j], gaps[j]) by {
            assert(res@[sep_base + j] == sepv[0 + j]);
        }
    }
    assert forall|k: int|
        0 <= k < res@.len() && (#[trigger] res@[k]).code@ == CodeView::MissingModule implies k == 0
        && allowed by {
        if k >= before.len() {
            assert(missing_sep_ok(t@, res@[k]));
        } else {
            assert(res@[k] == before[k]);
        }
    }
    proof {
        if before.len() > 0 {
            assert(res@[0] == before[0]);
        }
    }
    assert forall|k: int|
        0 <= k < res@.len() implies (#[trigger] res@[k]).range.start <= res@[k].range.end
        <= text@.len() by {
        if k >= before.len() {
            assert(missing_sep_ok(t@, res@[k]));
        }
    }
    if !config.disable_experimental {
        let ghost before = res@;
        let mut matches = trivial_match(t.as_slice(), &toks, &forms, &kinds);
        let ghost pre = res@;
        res.append(&mut matches);
        proof {
            assert forall|j: int| 0 <= j < gaps.len() implies reports_gap(#[trigger] res@[sep_base + j], gaps[j]) by {
                assert(res@[sep_base + j] == pre[sep_base + j]);
            }
        }
        assert forall|k: int|
            0 <= k < res@.len() && (#[trigger] res@[k]).code@ == CodeView::MissingModule implies k == 0
            && allowed by {
            if k >= before.len() {
                assert(trivial_ok(t@, res@[k]));
            } else {
                assert(res@[k] == before[k]);
            }
        }
        proof {
            if before.len() > 0 {
                assert(res@[0] == before[0]);
            }
        }
        assert forall|k: int|
            0 <= k < res@.len() implies (#[trigger] res@[k]).range.start <= res@[k].range.end
            <= text@.len() by {
            if k >= before.len() {
                assert(trivial_ok(t@, res@[k]));
            } else {
                assert(res@[k] == before[k]);
            }
        }
    }
    if !config.disable_experimental {
        let ghost before = res@;
        let mut assigns = redundant_assignment(t.as_slice(), &toks, &forms, &kinds);
        let ghost pre = res@;
        res.append(&mut assigns);
        proof {
            assert forall|j: int| 0 <= j < gaps.len() implies reports_gap(#[trigger] res@[sep_base + j], gaps[j]) by {
                assert(res@[sep_base + j] == pre[sep_base + j]);
            }
        }
        assert forall|k: int|
            0 <= k < res@.len() && (#[trigger] res@[k]).code@ == CodeView::MissingModule implies k == 0
            && allowed by {
            if k >= before.len() {
                assert(redundant_ok(t@, res@[k]));
            } else {
                assert(res@[k] == before[k]);
            }
        }
        proof {
            if before.len() > 0 {
                assert(res@[0] == before[0]);
            }
        }
        assert forall|k: int|
            0 <= k < res@.len() implies (#[trigger] res@[k]).range.start <= res@[k].range.end
            <= text@.len() by {
            if k >= before.len() {
                assert(redundant_ok(t@, res@[k]));
            } else {
                assert(res@[k] == before[k]);
            }
        }
    }
    if is_module {
        let ghost before = res@;
        let mut fields = unused_record_field(t.as_slice(), &toks, &forms, &kinds);
        let ghost pre = res@;
        let ghost fv = fields@;
        res.append(&mut fields);
        proof {
            assert forall|j: int| 0 <= j < unused_of(text@).len() implies reports_unused(
                text@,
                tokens_of(text@),
                #[trigger] res@[pre.len() + j],
                unused_of(text@)[j],
            ) by {
                assert(res@[pre.len() + j] == fv[j]);
            }
        }
        proof {
            assert forall|j: int| 0 <= j < gaps.len() implies reports_gap(#[trigger] res@[sep_base + j], gaps[j]) by {
                assert(res@[sep_base + j] == pre[sep_base + j]);
            }
        }
        assert forall|k: int|
            0 <= k < res@.len() && (#[trigger] res@[k]).code@ == CodeView::MissingModule implies k == 0
            && allowed by {
            if k >= before.len() {
                assert(unused_field_ok(t@, res@[k]));
            } else {
                assert(res@[k] == before[k]);
            }
        }
        proof {
            if before.len() > 0 {
                assert(res@[0] == before[0]);
            }
        }
        assert forall|k: int|
            0 <= k < res@.len() implies (#[trigger] res@[k]).range.start <= res@[k].range.end
            <= text@.len() by {
            if k >= before.len() {
                assert(unused_field_ok(t@, res@[k]));
            } else {
                assert(res@[k] == before[k]);
            }
        }
    }
    let ghost all = res@;
    let ghost field_base: int = all.len() - unused_of(text@).len();
    proof {
        if is_module {
            assert(forall|j: int| 0 <= j < unused_of(text@).len() ==> reports_unused(
                text@,
                tokens_of(text@),
                #[trigger] all[field_base + j],
                unused_of(text@)[j],
            ));
        }
    }
    let r = retain_reported(res, config, t.as_slice());
    proof {
        let f = |d: Diagnostic| is_reported(*config, t@, d);
        assert(r@ == all.filter(f));
        all.filter_lemma(f);
        assert forall|k: int| 0 <= k < r@.len() implies (#[trigger] r@[k]).range.start
            <= r@[k].range.end <= text@.len() by {
            assert(all.filter(f).contains(r@[k]));
            all.lemma_filter_contains_rev(f, r@[k]);
            assert(all.contains(r@[k]));
            let j = choose|j: int| 0 <= j < all.len() && all[j] == r@[k];
            assert(all[j].range.start <= all[j].range.end <= text@.len());
        }
    }
    let ghost kept = r@;
    proof {
        let f = |d: Diagnostic| is_reported(*config, t@, d);
        assert forall|j: int|
            0 <= j < unused_of(text@).len() && is_module && !config.is_disabled(
                DiagnosticCode::UnusedRecordField,
            ) && !ignored_at(
                text@,
                token_range(tokens_of(text@)[(#[trigger] unused_of(text@)[j]).field as int]).start as int,
                DiagnosticCode::UnusedRecordField,
            ) implies kept.contains(all[field_base + j]) by {
            let d = all[field_base + j];
            assert(reports_unused(text@, tokens_of(text@), d, unused_of(text@)[j]));
            assert(d.code == DiagnosticCode::UnusedRecordField);
            assert(f(d));
        }
        assert forall|j: int|
            0 <= j < gaps.len() && !config.is_disabled(DiagnosticCode::Missing) && !ignored_at(
                text@,
                (#[trigger] gaps[j]).0,
                DiagnosticCode::Missing,
            ) implies kept.contains(all[sep_base + j]) by {
            let d = all[sep_base + j];
            assert(reports_gap(d, gaps[j]));
            assert(d.code == DiagnosticCode::Missing);
            assert(f(d));
        }
        if allowed {
            let (ms, me) = missing_module_range(text@)->Some_0;
            if !config.is_disabled(DiagnosticCode::MissingModule) && !ignored_at(
                text@,
                ms,
                DiagnosticCode::MissingModule,
            ) {
                assert(all[0].code == DiagnosticCode::MissingModule);
                assert(f(all[0]));
                assert(kept.contains(all[0]));
            }
        }
        assert forall|j: int|
            0 <= j < kept.len() && (#[trigger] kept[j]).code@ == CodeView::MissingModule implies allowed by {
            assert(all.filter(f).contains(kept[j]));
            all.lemma_filter_contains_rev(f, kept[j]);
            let i = choose|i: int| 0 <= i < all.len() && all[i] == kept[j];
            assert(all[i].code@ == CodeView::MissingModule);
        }
    }
    let sorted = sort_diagnostics(r);
    proof {
        broadcast use vstd::seq_lib::group_to_multiset_ensures;

        assert forall|k: int| 0 <= k < sorted@.len() implies is_reported(*config, text@, #[trigger] sorted@[k])
            && sorted@[k].range.start <= sorted@[k].range.end <= text@.len() by {
            assert(sorted@.contains(sorted@[k]));
            assert(sorted@.to_multiset().count(sorted@[k]) > 0);
            assert(kept.to_multiset().count(sorted@[k]) > 0);
            assert(kept.contains(sorted@[k]));
            let j = choose|j: int| 0 <= j < kept.len() && kept[j] == sorted@[k];
            assert(is_reported(*config, text@, kept[j]));
        }
        if allowed {
            let (ms, me) = missing_module_range(text@)->Some_0;
            if !config.is_disabled(DiagnosticCode::MissingModule) && !ignored_at(
                text@,
                ms,
                DiagnosticCode::MissingModule,
            ) {
                let d = all[0];
                assert(kept.contains(d));
                assert(kept.to_multiset().count(d) > 0);
                assert(sorted@.to_multiset().count(d) > 0);
                assert(sorted@.contains(d));
                let j = choose|j: int| 0 <= j < sorted@.len() && sorted@[j] == d;
                assert(is_missing_module_at(sorted@[j], ms, me));
            }
        }
        assert forall|j: int|
            0 <= j < unused_of(text@).len() && is_module && !config.is_disabled(
                DiagnosticCode::UnusedRecordField,
            ) && !ignored_at(
                text@,
                token_range(tokens_of(text@)[(#[trigger] unused_of(text@)[j]).field as int]).start as int,
                DiagnosticCode::UnusedRecordField,
            ) implies exists|i: int|
                0 <= i < sorted@.len() && reports_unused(text@, tokens_of(text@), sorted@[i], unused_of(text@)[j]) by {
            let d = all[field_base + j];
            assert(kept.contains(d));
            assert(kept.to_multiset().count(d) > 0);
            assert(sorted@.to_multiset().count(d) > 0);
            assert(sorted@.contains(d));
            let i = choose|i: int| 0 <= i < sorted@.len() && sorted@[i] == d;
            assert(reports_unused(text@, tokens_of(text@), sorted@[i], unused_of(text@)[j]));
        }
        assert forall|j: int|
            0 <= j < gaps.len() && !config.is_disabled(DiagnosticCode::Missing) && !ignored_at(
                text@,
                (#[trigger] gaps[j]).0,
                DiagnosticCode::Missing,
            ) implies exists|i: int| 0 <= i < sorted@.len() && reports_gap(sorted@[i], gaps[j]) by {
            let d = all[sep_base + j];
            assert(kept.contains(d));
            assert(kept.to_multiset().count(d) > 0);
            assert(sorted@.to_multiset().count(d) > 0);
            assert(sorted@.contains(d));
            let i = choose|i: int| 0 <= i < sorted@.len() && sorted@[i] == d;
            assert(reports_gap(sorted@[i], gaps[j]));
        }
        assert forall|j: int|
            0 <= j < sorted@.len() && (#[trigger] sorted@[j]).code@ == CodeView::MissingModule implies allowed by {
            assert(sorted@.contains(sorted@[j]));
            assert(sorted@.to_multiset().count(sorted@[j]) > 0);
            assert(kept.to_multiset().count(sorted@[j]) > 0);
            assert(kept.contains(sorted@[j]));
            let i = choose|i: int| 0 <= i < kept.len() && kept[i] == sorted@[j];
            assert(kept[i].code@ == CodeView::MissingModule);
        }
    }
    sorted
}

} // verus!
