//! Diagnostics reported by the external analysis service.

use vstd::prelude::*;

use crate::code::DiagnosticCode;
use crate::code::Severity;
use crate::diagnostics::Diagnostic;
use crate::diagnostics::FileId;
use crate::diagnostics::TextRange;
use crate::text::str_eq;
use crate::codemod::line_of;

verus! {

#[derive(Clone, Copy, Debug, PartialEq, Eq, Structural)]
pub enum Location {
    TextRange(TextRange),
    StartLocation { line: u32, column: u32 },
}

#[derive(Clone, Copy, Debug, PartialEq, Eq, Structural)]
pub enum DiagnosticLocation {
    Normal(Location),
    /// The error lies in the file included by the directive at
    /// `directive_location`.
    Included { directive_location: TextRange, error_location: TextRange },
}

#[derive(Clone, Debug)]
pub struct ParseError {
    pub code: String,
    pub msg: String,
    pub location: Option<DiagnosticLocation>,
}

/// Where a service diagnostic is reported.
#[derive(Clone, Debug)]
pub struct DiagnosticInfo {
    pub file_id: FileId,
    pub start: u32,
    pub end: u32,
    pub code: String,
    pub msg: String,
}

pub open spec fn is_function_range_code(c: Seq<char>) -> bool {
    c == seq!['L', '1', '2', '3', '0'] || c == seq!['L', '1', '3', '0', '9']
}

pub open spec fn is_record_range_code(c: Seq<char>) -> bool {
    c == seq!['L', '1', '2', '6', '0']
}

/// The range a service diagnostic with `code` at `range` is reported on:
/// the defining name when the code points at a whole definition and the
/// name of the enclosing definition is known, else `range`.
pub open spec fn narrowed_range(
    code: Seq<char>,
    range: TextRange,
    fun_name: Option<TextRange>,
    record_name: Option<TextRange>,
) -> TextRange {
    if is_function_range_code(code) && fun_name is Some {
        fun_name->Some_0
    } else if is_record_range_code(code) && record_name is Some {
        record_name->Some_0
    } else {
        range
    }
}

/// The file and range a service parse error with `code` at `loc` is
/// reported on, or `None` when it lies in an include that does not resolve.
pub open spec fn info_place(
    file_id: FileId,
    code: Seq<char>,
    loc: Option<DiagnosticLocation>,
    included: Option<FileId>,
    fun_name: Option<TextRange>,
    record_name: Option<TextRange>,
) -> Option<(FileId, u32, u32)> {
    match loc {
        Some(DiagnosticLocation::Included { directive_location: _, error_location }) => match included {
            Some(f) => Some((f, error_location.start, error_location.end)),
            None => None,
        },
        Some(DiagnosticLocation::Normal(Location::TextRange(range))) => Some(
            (
                file_id,
                narrowed_range(code, range, fun_name, record_name).start,
                narrowed_range(code, range, fun_name, record_name).end,
            ),
        ),
        _ => Some((file_id, 0, 0)),
    }
}

/// Where and under which file a service parse error is reported.
/// `included` is the file that the include directive at the error's
/// directive location resolves to; `fun_name` and `record_name` are the
/// name ranges of the function and record declarations enclosing the start
/// of the error's range, if any.
pub fn parse_error_to_diagnostic_info(
    file_id: FileId,
    parse_error: &ParseError,
    included: Option<FileId>,
    fun_name: Option<TextRange>,
    record_name: Option<TextRange>,
) -> (r: Option<DiagnosticInfo>)
    ensures
        match r {
            Some(i) => info_place(
                file_id,
                parse_error.code@,
                parse_error.location,
                included,
                fun_name,
                record_name,
            ) == Some((i.file_id, i.start, i.end)) && i.code@ == parse_error.code@ && i.msg@
                == parse_error.msg@,
            None => info_place(
                file_id,
                parse_error.code@,
                parse_error.location,
                included,
                fun_name,
                record_name,
            ) is None,
        },
{
    let code = parse_error.code.clone();
    let msg = parse_error.msg.clone();
    match parse_error.location {
        Some(DiagnosticLocation::Included { directive_location: _, error_location }) => {
            match included {
                Some(f) => Some(
                    DiagnosticInfo {
                        file_id: f,
                        start: error_location.start,
                        end: error_location.end,
                        code,
                        msg,
                    },
                ),
                None => None,
            }
        },
        Some(DiagnosticLocation::Normal(Location::TextRange(range))) => {
            let r = narrow_range(parse_error.code.as_str(), range, fun_name, record_name);
            Some(DiagnosticInfo { file_id, start: r.start, end: r.end, code, msg })
        },
        _ => Some(DiagnosticInfo { file_id, start: 0, end: 0, code, msg }),
    }
}

/// The range of a service diagnostic, narrowed to the defining name where
/// the code calls for it.
pub fn narrow_range(
    code: &str,
    range: TextRange,
    fun_name: Option<TextRange>,
    record_name: Option<TextRange>,
) -> (r: TextRange)
    ensures
        r == narrowed_range(code@, range, fun_name, record_name),
{
    proof {
        reveal_strlit("L1230");
        reveal_strlit("L1309");
        reveal_strlit("L1260");
        assert("L1230"@ =~= seq!['L', '1', '2', '3', '0']);
        assert("L1309"@ =~= seq!['L', '1', '3', '0', '9']);
        assert("L1260"@ =~= seq!['L', '1', '2', '6', '0']);
    }
    if str_eq(code, "L1230") || str_eq(code, "L1309") {
        if let Some(n) = fun_name {
            return n;
        }
    } else if str_eq(code, "L1260") {
        if let Some(n) = record_name {
            return n;
        }
    }
    proof {
        if is_record_range_code(code@) {
            assert(code@[3] == '6');
            assert(!is_function_range_code(code@));
        }
    }
    range
}

pub open spec fn head_mismatch_message() -> Seq<char> {
    seq!['h', 'e', 'a', 'd', ' ', 'm', 'i', 's', 'm', 'a', 't', 'c', 'h']
}

pub open spec fn no_module_message() -> Seq<char> {
    seq!['n', 'o', ' ', 'm', 'o', 'd', 'u', 'l', 'e', ' ', 'd', 'e', 'f', 'i', 'n', 'i', 't', 'i', 'o', 'n']
}

/// False for the messages of service diagnostics that this library
/// already reports itself, true for the others.
pub fn is_implemented_in_elp(message: &String) -> (r: bool)
    ensures
        r == !(message@ == head_mismatch_message() || message@ == no_module_message()),
{
    proof {
        reveal_strlit("head mismatch");
        reveal_strlit("no module definition");
        assert("head mismatch"@ =~= head_mismatch_message());
        assert("no module definition"@ =~= no_module_message());
    }
    !(str_eq(message.as_str(), "head mismatch") || str_eq(message.as_str(), "no module definition"))
}

pub open spec fn is_implemented_in_elp_spec(m: Seq<char>) -> bool {
    !(m == head_mismatch_message() || m == no_module_message())
}

pub open spec fn service_diagnostic(i: DiagnosticInfo, severity: Severity) -> (FileId, Diagnostic) {
    (
        i.file_id,
        Diagnostic {
            message: i.msg,
            range: TextRange { start: i.start, end: i.end },
            severity,
            experimental: false,
            fixes: None,
            related_info: None,
            code: DiagnosticCode::ErlangService(i.code),
        },
    )
}

/// The diagnostics, in order, of the entries of `s` whose message this
/// library does not report itself.
/// Two entries name the same file, range, code and message.
pub open spec fn same_info(a: DiagnosticInfo, b: DiagnosticInfo) -> bool {
    a.file_id == b.file_id && a.start == b.start && a.end == b.end && a.code@ == b.code@ && a.msg@
        == b.msg@
}

/// An entry like `e` comes earlier in `prefix`.
pub open spec fn repeated(prefix: Seq<DiagnosticInfo>, e: DiagnosticInfo) -> bool {
    exists|k: int| 0 <= k < prefix.len() && same_info(#[trigger] prefix[k], e)
}

/// The diagnostics, in order, of the entries of `s` whose message this
/// library does not report itself, each entry once.
pub open spec fn service_diagnostics_of(s: Seq<DiagnosticInfo>, severity: Severity) -> Seq<
    (FileId, Diagnostic),
>
    decreases s.len(),
{
    if s.len() == 0 {
        Seq::empty()
    } else {
        service_diagnostics_of(s.drop_last(), severity) + if is_implemented_in_elp_spec(
            s.last().msg@,
        ) && !repeated(s.drop_last(), s.last()) {
            seq![service_diagnostic(s.last(), severity)]
        } else {
            Seq::empty()
        }
    }
}

fn push_service_diagnostics(
    out: &mut Vec<(FileId, Diagnostic)>,
    infos: Vec<DiagnosticInfo>,
    severity: Severity,
)
    ensures
        final(out)@ == old(out)@ + service_diagnostics_of(infos@, severity),
{
    let ghost orig = infos@;
    let ghost start = out@;
    let n = infos.len();
    let mut rest = infos;
    let mut i: usize = 0;
    let mut seen: Vec<(FileId, u32, u32, String, String)> = Vec::new();
    assert(orig.subrange(0, 0) =~= Seq::<DiagnosticInfo>::empty());
    while rest.len() > 0
        invariant
            i <= orig.len(),
            orig.len() == n,
            rest@ == orig.subrange(i as int, orig.len() as int),
            out@ == start + service_diagnostics_of(orig.subrange(0, i as int), severity),
            seen@.len() == i,
            forall|k: int|
                0 <= k < i ==> (#[trigger] seen@[k]).0 == orig[k].file_id && seen@[k].1 == orig[k].start
                    && seen@[k].2 == orig[k].end && seen@[k].3@ == orig[k].code@ && seen@[k].4@
                    == orig[k].msg@,
        decreases rest.len(),
    {
        let e = rest.remove(0);
        assert(e == orig[i as int]);
        let ghost prefix = orig.subrange(0, i as int);
        assert(orig.subrange(0, i + 1).drop_last() =~= prefix);
        let mut dup = false;
        let mut m: usize = 0;
        while m < seen.len() && !dup
            invariant
                m <= seen@.len(),
                seen@.len() == i,
                i <= orig.len(),
                prefix == orig.subrange(0, i as int),
                forall|k: int|
                    0 <= k < i ==> (#[trigger] seen@[k]).0 == orig[k].file_id && seen@[k].1
                        == orig[k].start && seen@[k].2 == orig[k].end && seen@[k].3@ == orig[k].code@
                        && seen@[k].4@ == orig[k].msg@,
                dup ==> repeated(prefix, e),
                !dup ==> forall|k: int| 0 <= k < m ==> !same_info(#[trigger] prefix[k], e),
            decreases seen@.len() - m,
        {
            let s = &seen[m];
            if s.0 == e.file_id && s.1 == e.start && s.2 == e.end && s.3 == e.code && s.4 == e.msg {
                assert(same_info(prefix[m as int], e));
                dup = true;
            }
            m = m + 1;
        }
        let key = (e.file_id, e.start, e.end, e.code.clone(), e.msg.clone());
        seen.push(key);
        if !dup && is_implemented_in_elp(&e.msg) {
            let ghost spec_d = service_diagnostic(e, severity);
            let d = Diagnostic::new(
                DiagnosticCode::ErlangService(e.code),
                e.msg,
                TextRange { start: e.start, end: e.end },
            ).severity(severity);
            assert(d == spec_d.1);
            out.push((e.file_id, d));
        }
        i = i + 1;
        assert(rest@ =~= orig.subrange(i as int, orig.len() as int));
        assert(out@ =~= start + service_diagnostics_of(orig.subrange(0, i as int), severity));
    }
    assert(orig.subrange(0, i as int) =~= orig);
}

/// The diagnostics of the external service for a file: errors, then
/// warnings, leaving out those this library reports itself and repeats
/// of an entry within each list.
pub fn service_diagnostics(errors: Vec<DiagnosticInfo>, warnings: Vec<DiagnosticInfo>) -> (r: Vec<
    (FileId, Diagnostic),
>)
    ensures
        r@ == service_diagnostics_of(errors@, Severity::Error) + service_diagnostics_of(
            warnings@,
            Severity::Warning,
        ),
{
    let mut out: Vec<(FileId, Diagnostic)> = Vec::new();
    push_service_diagnostics(&mut out, errors, Severity::Error);
    push_service_diagnostics(&mut out, warnings, Severity::Warning);
    assert(out@ =~= service_diagnostics_of(errors@, Severity::Error) + service_diagnostics_of(
        warnings@,
        Severity::Warning,
    ));
    out
}

/// A service error reported without a location lies at the start of the
/// file, with an empty range.
pub proof fn lemma_unlocated_error_at_start(
    file_id: FileId,
    code: Seq<char>,
    included: Option<FileId>,
    fun_name: Option<TextRange>,
    record_name: Option<TextRange>,
)
    ensures
        info_place(file_id, code, None, included, fun_name, record_name) == Some((file_id, 0u32, 0u32)),
{
}

/// `L1230` and `L1309` are narrowed to the name of the enclosing function,
/// `L1260` to the name of the enclosing record, when there is one; every
/// other diagnostic keeps its range.
pub proof fn lemma_narrowing(
    code: Seq<char>,
    range: TextRange,
    fun_name: Option<TextRange>,
    record_name: Option<TextRange>,
)
    ensures
        (code == seq!['L', '1', '2', '3', '0'] || code == seq!['L', '1', '3', '0', '9']) ==> narrowed_range(
            code,
            range,
            fun_name,
            record_name,
        ) == match fun_name {
            Some(n) => n,
            None => range,
        },
        code == seq!['L', '1', '2', '6', '0'] ==> narrowed_range(code, range, fun_name, record_name)
            == match record_name {
            Some(n) => n,
            None => range,
        },
        !is_function_range_code(code) && !is_record_range_code(code) ==> narrowed_range(
            code,
            range,
            fun_name,
            record_name,
        ) == range,
{
    if code == seq!['L', '1', '2', '6', '0'] {
        assert(code[3] == '6');
        assert(!is_function_range_code(code));
    }
}

// ---------------------------------------------------------------------
// Documentation-checker diagnostics.

/// A diagnostic of the documentation checker: a line (from 1; 0 for the
/// whole module), a severity word and a message.
#[derive(Clone, Debug)]
pub struct EdocDiagnostic {
    pub line: u32,
    pub severity: String,
    pub message: String,
}

/// `o` is where line `n` (from 0) of `t` starts.
pub open spec fn starts_line(t: Seq<char>, o: int, n: int) -> bool {
    &&& 0 <= o <= t.len()
    &&& (o == 0 || t[o - 1] == '\n')
    &&& line_of(t, o) == n
}

/// Where line `n` starts, if the text has that many lines.
pub open spec fn line_offset(t: Seq<char>, n: int) -> Option<int> {
    if exists|o: int| starts_line(t, o, n) {
        Some(choose|o: int| starts_line(t, o, n))
    } else {
        None
    }
}

proof fn lemma_line_of_mono(t: Seq<char>, a: int, b: int)
    requires
        0 <= a <= b <= t.len(),
    ensures
        line_of(t, a) <= line_of(t, b),
        t.len() > 0 && a < b && t[a] == '\n' ==> line_of(t, a) < line_of(t, b),
    decreases b - a,
{
    if a < b {
        lemma_line_of_mono(t, a, b - 1);
    }
}

proof fn lemma_line_start_unique(t: Seq<char>, o1: int, o2: int, n: int)
    requires
        starts_line(t, o1, n),
        starts_line(t, o2, n),
    ensures
        o1 == o2,
{
    if o1 < o2 {
        lemma_line_of_mono(t, o2 - 1, o2);
        lemma_line_of_mono(t, o1, o2 - 1);
        assert(line_of(t, o2) == line_of(t, o2 - 1) + 1);
    } else if o2 < o1 {
        lemma_line_of_mono(t, o1 - 1, o1);
        lemma_line_of_mono(t, o2, o1 - 1);
        assert(line_of(t, o1) == line_of(t, o1 - 1) + 1);
    }
}

/// Where line `n` (from 0) starts.
pub fn offset_of_line(t: &[char], n: u32) -> (r: Option<u32>)
    requires
        t@.len() <= u32::MAX,
    ensures
        match r {
            Some(o) => line_offset(t@, n as int) == Some(o as int),
            None => line_offset(t@, n as int) is None,
        },
{
    let mut line: u32 = 0;
    let mut i: usize = 0;
    if n == 0 {
        proof {
            assert(starts_line(t@, 0, 0));
            assert forall|o: int| starts_line(t@, o, 0) implies o == 0 by {
                lemma_line_start_unique(t@, o, 0, 0);
            }
        }
        return Some(0);
    }
    while i < t.len()
        invariant
            t@.len() <= u32::MAX,
            i <= t@.len(),
            n > 0,
            line as int == line_of(t@, i as int),
            line < n,
            forall|o: int| 0 <= o <= i ==> !starts_line(t@, o, n as int),
        decreases t@.len() - i,
    {
        let c = t[i];
        i = i + 1;
        if c == '\n' {
            line = line + 1;
            if line == n {
                proof {
                    assert(starts_line(t@, i as int, n as int));
                    assert forall|o: int| starts_line(t@, o, n as int) implies o == i by {
                        lemma_line_start_unique(t@, o, i as int, n as int);
                    }
                }
                return Some(i as u32);
            }
        }
        proof {
            assert forall|o: int| 0 <= o <= i implies !starts_line(t@, o, n as int) by {
                if o == i {
                    lemma_line_of_mono(t@, o, o);
                }
            }
        }
    }
    proof {
        assert forall|o: int| !starts_line(t@, o, n as int) by {
            if 0 <= o <= t@.len() {
                assert(o <= i);
            }
        }
    }
    None
}

pub open spec fn edoc_line(line: u32) -> int {
    if line == 0 {
        1
    } else {
        line as int
    }
}

pub open spec fn or_zero(o: Option<int>) -> int {
    match o {
        Some(x) => x,
        None => 0,
    }
}

pub open spec fn edoc_code() -> Seq<char> {
    seq!['E', 'D', 'O', 'C', '0', '0', '0']
}

/// The entries of `s` with severity word `sev`, in order, as `(file, start,
/// end, message)`: the range covers the entry's line.
pub open spec fn edoc_entries(t: Seq<char>, s: Seq<EdocDiagnostic>, sev: Seq<char>) -> Seq<
    (int, int, Seq<char>),
>
    decreases s.len(),
{
    if s.len() == 0 {
        Seq::empty()
    } else {
        edoc_entries(t, s.drop_last(), sev) + if s.last().severity@ == sev {
            seq![
                (
                    or_zero(line_offset(t, edoc_line(s.last().line) - 1)),
                    or_zero(line_offset(t, edoc_line(s.last().line))),
                    s.last().message@,
                ),
            ]
        } else {
            Seq::empty()
        }
    }
}

pub open spec fn diagnostic_place(d: (FileId, Diagnostic)) -> (int, int, Seq<char>) {
    (d.1.range.start as int, d.1.range.end as int, d.1.message@)
}

fn push_edoc(
    out: &mut Vec<(FileId, Diagnostic)>,
    file_id: FileId,
    t: &[char],
    entries: &Vec<EdocDiagnostic>,
    sev: &str,
)
    requires
        t@.len() <= u32::MAX,
    ensures
        final(out)@.len() == old(out)@.len() + edoc_entries(t@, entries@, sev@).len(),
        forall|k: int| 0 <= k < old(out)@.len() ==> #[trigger] final(out)@[k] == old(out)@[k],
        forall|k: int|
            0 <= k < edoc_entries(t@, entries@, sev@).len() ==> diagnostic_place(
                #[trigger] final(out)@[old(out)@.len() + k],
            ) == edoc_entries(t@, entries@, sev@)[k],
        forall|k: int|
            old(out)@.len() <= k < final(out)@.len() ==> (#[trigger] final(out)@[k]).0 == file_id
                && final(out)@[k].1.severity == Severity::WeakWarning && final(out)@[k].1.code@
                == crate::code::CodeView::ErlangService(edoc_code()),
{
    let ghost start = out@;
    let mut i: usize = 0;
    while i < entries.len()
        invariant
            t@.len() <= u32::MAX,
            i <= entries@.len(),
            out@.len() == start.len() + edoc_entries(t@, entries@.subrange(0, i as int), sev@).len(),
            forall|k: int| 0 <= k < start.len() ==> #[trigger] out@[k] == start[k],
            forall|k: int|
                0 <= k < edoc_entries(t@, entries@.subrange(0, i as int), sev@).len()
                    ==> diagnostic_place(#[trigger] out@[start.len() + k]) == edoc_entries(
                    t@,
                    entries@.subrange(0, i as int),
                    sev@,
                )[k],
            forall|k: int|
                start.len() <= k < out@.len() ==> (#[trigger] out@[k]).0 == file_id
                    && out@[k].1.severity == Severity::WeakWarning && out@[k].1.code@
                    == crate::code::CodeView::ErlangService(edoc_code()),
        decreases entries@.len() - i,
    {
        let e = &entries[i];
        let ghost prev = entries@.subrange(0, i as int);
        let ghost next = entries@.subrange(0, i + 1);
        assert(next.drop_last() =~= prev);
        assert(next.last() == entries@[i as int]);
        if str_eq(e.severity.as_str(), sev) {
            let line: u32 = if e.line == 0 {
                1
            } else {
                e.line
            };
            let start_off = match offset_of_line(t, line - 1) {
                Some(o) => o,
                None => 0,
            };
            let end_off = match offset_of_line(t, line) {
                Some(o) => o,
                None => 0,
            };
            let code = String::from_str("EDOC000");
            proof {
                reveal_strlit("EDOC000");
                assert("EDOC000"@ =~= edoc_code());
            }
            let d = Diagnostic::new(
                DiagnosticCode::ErlangService(code),
                e.message.clone(),
                TextRange { start: start_off, end: end_off },
            ).severity(Severity::WeakWarning);
            out.push((file_id, d));
        }
        i = i + 1;
    }
    assert(entries@.subrange(0, entries@.len() as int) =~= entries@);
}

/// The range a location of the service stands for in text `t`: a text
/// range as it is; a line and column as the empty range at that column of
/// that line (at most the end of the text), or `None` when the text has no
/// such line.
pub fn location_range(t: &[char], location: Location) -> (r: Option<TextRange>)
    requires
        t@.len() <= u32::MAX,
    ensures
        match location {
            Location::TextRange(range) => r == Some(range),
            Location::StartLocation { line, column } => match line_offset(t@, line as int) {
                Some(o) => r is Some && r->Some_0.start == r->Some_0.end && r->Some_0.start as int == if o
                    + column > t@.len() {
                    t@.len() as int
                } else {
                    o + column
                },
                None => r is None,
            },
        },
{
    match location {
        Location::TextRange(range) => Some(range),
        Location::StartLocation { line, column } => match offset_of_line(t, line) {
            Some(o) => {
                let len = t.len() as u32;
                let pos = if column > len - o {
                    len
                } else {
                    o + column
                };
                Some(TextRange { start: pos, end: pos })
            },
            None => None,
        },
    }
}

/// The documentation checker's diagnostics for a file with text `t`:
/// errors, then warnings, each as a weak warning on the line it names,
/// under code `EDOC000`. None when the file does not parse.
pub fn edoc_diagnostics(
    file_id: FileId,
    t: &[char],
    parsed: bool,
    entries: &Vec<EdocDiagnostic>,
) -> (r: Vec<(FileId, Diagnostic)>)
    requires
        t@.len() <= u32::MAX,
    ensures
        !parsed ==> r@.len() == 0,
        parsed ==> r@.map_values(|d: (FileId, Diagnostic)| diagnostic_place(d)) == edoc_entries(
            t@,
            entries@,
            seq!['e', 'r', 'r', 'o', 'r'],
        ) + edoc_entries(t@, entries@, seq!['w', 'a', 'r', 'n', 'i', 'n', 'g']),
        forall|k: int|
            0 <= k < r@.len() ==> (#[trigger] r@[k]).0 == file_id && r@[k].1.severity
                == Severity::WeakWarning && r@[k].1.code@ == crate::code::CodeView::ErlangService(
                edoc_code(),
            ),
{
    let mut out: Vec<(FileId, Diagnostic)> = Vec::new();
    if !parsed {
        return out;
    }
    proof {
        reveal_strlit("error");
        reveal_strlit("warning");
        assert("error"@ =~= seq!['e', 'r', 'r', 'o', 'r']);
        assert("warning"@ =~= seq!['w', 'a', 'r', 'n', 'i', 'n', 'g']);
    }
    push_edoc(&mut out, file_id, t, entries, "error");
    let ghost mid = out@;
    push_edoc(&mut out, file_id, t, entries, "warning");
    let ghost es = edoc_entries(t@, entries@, seq!['e', 'r', 'r', 'o', 'r']);
    let ghost ws = edoc_entries(t@, entries@, seq!['w', 'a', 'r', 'n', 'i', 'n', 'g']);
    let ghost mapped = out@.map_values(|d: (FileId, Diagnostic)| diagnostic_place(d));
    assert(mapped =~= es + ws) by {
        assert forall|k: int| 0 <= k < out@.len() implies #[trigger] mapped[k] == (es + ws)[k] by {
            assert(mapped[k] == diagnostic_place(out@[k]));
            if k < es.len() {
                assert(out@[k] == mid[k]);
                assert(diagnostic_place(mid[0 + k]) == es[k]);
            } else {
                assert(mid.len() == es.len());
                assert(diagnostic_place(out@[mid.len() + (k - es.len())]) == ws[k - es.len()]);
            }
        }
    }
    out
}

// ---------------------------------------------------------------------
// Grouping by file.

/// The diagnostics of `s` that belong to file `f`, in order.
pub open spec fn of_file(s: Seq<(FileId, Diagnostic)>, f: FileId) -> Seq<Diagnostic> {
    s.filter(in_file(f)).map_values(diagnostic_of())
}

pub open spec fn in_file(f: FileId) -> spec_fn((FileId, Diagnostic)) -> bool {
    |p: (FileId, Diagnostic)| p.0 == f
}

pub open spec fn diagnostic_of() -> spec_fn((FileId, Diagnostic)) -> Diagnostic {
    |p: (FileId, Diagnostic)| p.1
}

pub open spec fn grouped(s: Seq<(FileId, Diagnostic)>, r: Seq<(FileId, Vec<Diagnostic>)>) -> bool {
    &&& forall|a: int, b: int| 0 <= a < b < r.len() ==> #[trigger] r[a].0 != #[trigger] r[b].0
    &&& forall|g: int| 0 <= g < r.len() ==> (#[trigger] r[g]).1@ == of_file(s, r[g].0)
    &&& forall|k: int|
        0 <= k < s.len() ==> exists|g: int| 0 <= g < r.len() && r[g].0 == (#[trigger] s[k]).0
}

proof fn lemma_of_file_push(s: Seq<(FileId, Diagnostic)>, x: (FileId, Diagnostic), f: FileId)
    ensures
        of_file(s.push(x), f) == if x.0 == f {
            of_file(s, f).push(x.1)
        } else {
            of_file(s, f)
        },
{
    let pred = in_file(f);
    let get = diagnostic_of();
    s.lemma_filter_push(x, pred);
    if x.0 == f {
        assert(s.filter(pred).push(x).map_values(get) =~= s.filter(pred).map_values(get).push(x.1));
    }
}

proof fn lemma_of_file_absent(s: Seq<(FileId, Diagnostic)>, f: FileId)
    requires
        forall|k: int| 0 <= k < s.len() ==> (#[trigger] s[k]).0 != f,
    ensures
        of_file(s, f).len() == 0,
    decreases s.len(),
{
    if s.len() > 0 {
        assert forall|k: int| 0 <= k < s.drop_last().len() implies (#[trigger] s.drop_last()[k]).0
            != f by {
            assert(s.drop_last()[k] == s[k]);
        }
        lemma_of_file_absent(s.drop_last(), f);
        assert(s.drop_last().push(s.last()) =~= s);
        lemma_of_file_push(s.drop_last(), s.last(), f);
    }
}

/// The diagnostics grouped by file, groups in order of first appearance;
/// with no diagnostics, one empty group for `file_id`, which clears what
/// was reported for it before.
pub fn group_by_file(file_id: FileId, diags: Vec<(FileId, Diagnostic)>) -> (r: Vec<
    (FileId, Vec<Diagnostic>),
>)
    ensures
        diags@.len() == 0 ==> r@.len() == 1 && r@[0].0 == file_id && r@[0].1@.len() == 0,
        diags@.len() > 0 ==> grouped(diags@, r@),
{
    let mut groups: Vec<(FileId, Vec<Diagnostic>)> = Vec::new();
    if diags.len() == 0 {
        groups.push((file_id, Vec::new()));
        return groups;
    }
    let ghost orig = diags@;
    let n = diags.len();
    let mut rest = diags;
    let mut i: usize = 0;
    assert(orig.subrange(0, 0) =~= Seq::<(FileId, Diagnostic)>::empty());
    while rest.len() > 0
        invariant
            i <= orig.len(),
            orig.len() == n,
            rest@ == orig.subrange(i as int, orig.len() as int),
            grouped(orig.subrange(0, i as int), groups@),
        decreases rest.len(),
    {
        let (f, d) = rest.remove(0);
        let ghost prefix = orig.subrange(0, i as int);
        let ghost item = (f, d);
        assert(item == orig[i as int]);
        assert(orig.subrange(0, i + 1) =~= prefix.push(item));
        let mut j: usize = 0;
        while j < groups.len() && groups[j].0 != f
            invariant
                j <= groups@.len(),
                forall|m: int| 0 <= m < j ==> groups@[m].0 != f,
            decreases groups@.len() - j,
        {
            j = j + 1;
        }
        let ghost old_groups = groups@;
        assert(forall|m: int| 0 <= m < j ==> old_groups[m].0 != f);
        if j < groups.len() {
            let (key, mut v) = groups.remove(j);
            v.push(d);
            groups.insert(j, (key, v));
            proof {
                assert forall|g: int| 0 <= g < groups@.len() implies (#[trigger] groups@[g]).1@
                    == of_file(prefix.push(item), groups@[g].0) by {
                    lemma_of_file_push(prefix, item, groups@[g].0);
                    if g != j {
                        assert(groups@[g] == old_groups[g]);
                        assert(old_groups[g].0 != old_groups[j as int].0);
                    }
                }
                assert forall|a: int, b: int| 0 <= a < b < groups@.len() implies #[trigger] groups@[a].0
                    != #[trigger] groups@[b].0 by {
                    assert(groups@[a].0 == old_groups[a].0 && groups@[b].0 == old_groups[b].0);
                }
                assert forall|k: int| 0 <= k < prefix.push(item).len() implies exists|g: int|
                    0 <= g < groups@.len() && groups@[g].0 == (#[trigger] prefix.push(item)[k]).0 by {
                    if k < prefix.len() {
                        let g = choose|g: int| 0 <= g < old_groups.len() && old_groups[g].0 == prefix[k].0;
                        assert(groups@[g].0 == old_groups[g].0);
                    } else {
                        assert(groups@[j as int].0 == f);
                    }
                }
                assert(grouped(prefix.push(item), groups@));
            }
        } else {
            let mut v: Vec<Diagnostic> = Vec::new();
            v.push(d);
            groups.push((f, v));
            proof {
                assert forall|k: int| 0 <= k < prefix.len() implies (#[trigger] prefix[k]).0 != f by {
                    let g = choose|g: int| 0 <= g < old_groups.len() && old_groups[g].0 == prefix[k].0;
                    assert(old_groups[g].0 != f);
                }
                lemma_of_file_absent(prefix, f);
                assert forall|g: int| 0 <= g < groups@.len() implies (#[trigger] groups@[g]).1@
                    == of_file(prefix.push(item), groups@[g].0) by {
                    lemma_of_file_push(prefix, item, groups@[g].0);
                    if g < old_groups.len() {
                        assert(groups@[g] == old_groups[g]);
                    } else {
                        assert(groups@[g].1@ =~= Seq::<Diagnostic>::empty().push(d));
                        assert(of_file(prefix, f) =~= Seq::<Diagnostic>::empty());
                    }
                }
                assert forall|a: int, b: int| 0 <= a < b < groups@.len() implies #[trigger] groups@[a].0
                    != #[trigger] groups@[b].0 by {
                    if b < old_groups.len() {
                        assert(groups@[a] == old_groups[a] && groups@[b] == old_groups[b]);
                    } else {
                        assert(groups@[a] == old_groups[a]);
                        assert(old_groups[a].0 != f);
                    }
                }
                assert forall|k: int| 0 <= k < prefix.push(item).len() implies exists|g: int|
                    0 <= g < groups@.len() && groups@[g].0 == (#[trigger] prefix.push(item)[k]).0 by {
                    if k < prefix.len() {
                        let g = choose|g: int| 0 <= g < old_groups.len() && old_groups[g].0 == prefix[k].0;
                        assert(groups@[g] == old_groups[g]);
                    } else {
                        assert(groups@[old_groups.len() as int].0 == f);
                    }
                }
                assert(grouped(prefix.push(item), groups@));
            }
        }
        i = i + 1;
        assert(rest@ =~= orig.subrange(i as int, orig.len() as int));
    }
    assert(orig.subrange(0, i as int) =~= orig);
    groups
}

/// The diagnostics of the external service for file `file_id`, grouped by
/// the file they belong to: errors, then warnings, leaving out those this
/// library reports itself and repeated entries; with none left, one empty
/// group for `file_id`, which clears what was reported for it before.
/// Groups come in order of first appearance, each in input order.
pub fn erlang_service_diagnostics(
    file_id: FileId,
    errors: Vec<DiagnosticInfo>,
    warnings: Vec<DiagnosticInfo>,
) -> (r: Vec<(FileId, Vec<Diagnostic>)>)
    ensures
        service_diagnostics_of(errors@, Severity::Error) + service_diagnostics_of(
            warnings@,
            Severity::Warning,
        ) == Seq::<(FileId, Diagnostic)>::empty() ==> r@.len() == 1 && r@[0].0 == file_id
            && r@[0].1@.len() == 0,
        (service_diagnostics_of(errors@, Severity::Error) + service_diagnostics_of(
            warnings@,
            Severity::Warning,
        )).len() > 0 ==> grouped(
            service_diagnostics_of(errors@, Severity::Error) + service_diagnostics_of(
                warnings@,
                Severity::Warning,
            ),
            r@,
        ),
{
    let flat = service_diagnostics(errors, warnings);
    proof {
        if flat@.len() == 0 {
            assert(flat@ =~= Seq::<(FileId, Diagnostic)>::empty());
        }
    }
    group_by_file(file_id, flat)
}

} // verus!
