//! The fixpoint codemod driver: selecting diagnostics, applying the first
//! fix of each file, and repeating under a recursion bound.

use vstd::prelude::*;

use crate::code::code_text;
use crate::code::DiagnosticCode;
use crate::diagnostics::Diagnostic;
use crate::diagnostics::TextEdit;
use crate::text::chars_of;

verus! {

/// An inclusive pair of line numbers changed by the previous iteration.
pub type ChangeRange = (u32, u32);

/// The number of fix iterations after which a codemod gives up.
pub const LINT_APPLICATION_RECURSION_LIMIT: u32 = 10;

pub open spec fn in_some_change(changes: Seq<ChangeRange>, line: u32) -> bool {
    exists|k: int| 0 <= k < changes.len() && changes[k].0 <= line <= #[trigger] changes[k].1
}

/// No changes mean no constraint; otherwise the line must lie in one of
/// the changed ranges.
pub fn check_changes(changes: &[ChangeRange], line: u32) -> (r: bool)
    ensures
        r == (changes@.len() == 0 || in_some_change(changes@, line)),
{
    if changes.len() == 0 {
        return true;
    }
    let mut i: usize = 0;
    while i < changes.len()
        invariant
            i <= changes@.len(),
            forall|k: int| 0 <= k < i ==> !(changes@[k].0 <= line <= #[trigger] changes@[k].1),
        decreases changes@.len() - i,
    {
        if line >= changes[i].0 && line <= changes[i].1 {
            assert(changes@[i as int].0 <= line <= changes@[i as int].1);
            return true;
        }
        i = i + 1;
    }
    false
}

/// An absent constraint passes; a present one must satisfy `f`.
pub fn check<T, F: FnOnce(&T) -> bool>(maybe_constraint: &Option<T>, f: F) -> (r: bool)
    requires
        maybe_constraint is Some ==> f.requires((&maybe_constraint->Some_0,)),
    ensures
        maybe_constraint is None ==> r,
        maybe_constraint is Some ==> f.ensures((&maybe_constraint->Some_0,), r),
{
    if let Some(constraint) = maybe_constraint {
        f(constraint)
    } else {
        true
    }
}

// ---------------------------------------------------------------------
// Lines.

/// The number of line breaks before position `off`: its line, from 0.
pub open spec fn line_of(t: Seq<char>, off: int) -> int
    decreases off,
{
    if off <= 0 || t.len() == 0 {
        0
    } else if off > t.len() {
        line_of(t, t.len() as int)
    } else {
        line_of(t, off - 1) + if t[off - 1] == '\n' {
            1int
        } else {
            0int
        }
    }
}

proof fn lemma_line_of_bound(t: Seq<char>, off: int)
    requires
        0 <= off <= t.len(),
    ensures
        0 <= line_of(t, off) <= off,
    decreases off,
{
    if off > 0 && t.len() > 0 {
        lemma_line_of_bound(t, off - 1);
    }
}

pub fn line_number(t: &[char], offset: u32) -> (r: u32)
    ensures
        r as int == line_of(t@, offset as int),
{
    let end: usize = if (offset as usize) > t.len() {
        t.len()
    } else {
        offset as usize
    };
    proof {
        if t@.len() > 0 && offset as int > t@.len() {
            assert(line_of(t@, offset as int) == line_of(t@, t@.len() as int));
        }
    }
    let mut n: u32 = 0;
    let mut i: usize = 0;
    while i < end
        invariant
            i <= end <= t@.len(),
            end <= offset,
            n as int == line_of(t@, i as int),
            line_of(t@, offset as int) == line_of(t@, end as int),
        decreases end - i,
    {
        proof {
            lemma_line_of_bound(t@, i as int);
        }
        if t[i] == '\n' {
            n = n + 1;
        }
        i = i + 1;
    }
    n
}

// ---------------------------------------------------------------------
// Selecting diagnostics.

/// A diagnostic at line `line` passes the code filter, the line bounds and
/// the change ranges.
pub open spec fn selected(
    d: Diagnostic,
    line: int,
    code: Option<Seq<char>>,
    line_from: Option<u32>,
    line_to: Option<u32>,
    changes: Seq<ChangeRange>,
) -> bool {
    &&& (code is None || code == Some(code_text(d.code@)))
    &&& (line_from is None || line >= line_from->Some_0)
    &&& (line_to is None || line <= line_to->Some_0)
    &&& (changes.len() == 0 || in_some_change(changes, line as u32))
}

pub open spec fn opt_view(o: Option<&String>) -> Option<Seq<char>> {
    match o {
        Some(s) => Some(s@),
        None => None,
    }
}

/// Keeps, in order, the diagnostics of a file with text `text` that pass
/// every supplied constraint.
pub fn select_diagnostics(
    text: &[char],
    ds: Vec<Diagnostic>,
    code: Option<&String>,
    line_from: Option<u32>,
    line_to: Option<u32>,
    changes: &[ChangeRange],
) -> (r: Vec<Diagnostic>)
    ensures
        r@ == ds@.filter(
            |d: Diagnostic|
                selected(
                    d,
                    line_of(text@, d.range.start as int),
                    opt_view(code),
                    line_from,
                    line_to,
                    changes@,
                ),
        ),
{
    let ghost orig = ds@;
    let ghost f = |d: Diagnostic|
        selected(
            d,
            line_of(text@, d.range.start as int),
            opt_view(code),
            line_from,
            line_to,
            changes@,
        );
    let n = ds.len();
    let mut rest = ds;
    let mut out: Vec<Diagnostic> = Vec::new();
    let mut i: usize = 0;
    assert(orig.subrange(0, 0).filter(f) =~= Seq::<Diagnostic>::empty());
    assert(orig.subrange(0, orig.len() as int) =~= orig);
    while rest.len() > 0
        invariant
            i <= orig.len(),
            orig.len() == n,
            rest@ == orig.subrange(i as int, orig.len() as int),
            out@ == orig.subrange(0, i as int).filter(f),
            f == (|d: Diagnostic|
                selected(
                    d,
                    line_of(text@, d.range.start as int),
                    opt_view(code),
                    line_from,
                    line_to,
                    changes@,
                )),
        decreases rest.len(),
    {
        let d = rest.remove(0);
        assert(d == orig[i as int]);
        let line = line_number(text, d.range.start);
        let code_ok = match code {
            Some(c) => {
                let own = d.code.as_code();
                own == *c
            },
            None => true,
        };
        let at_least = (|l: &u32| -> (b: bool)
            ensures
                b == (*l <= line),
            { *l <= line });
        let at_most = (|l: &u32| -> (b: bool)
            ensures
                b == (line <= *l),
            { line <= *l });
        let keep = code_ok && check(&line_from, at_least) && check(&line_to, at_most) && check_changes(changes, line);
        assert(orig.subrange(0, i + 1) =~= orig.subrange(0, i as int).push(d));
        proof {
            orig.subrange(0, i as int).lemma_filter_push(d, f);
        }
        if keep {
            out.push(d);
        }
        i = i + 1;
        assert(rest@ =~= orig.subrange(i as int, orig.len() as int));
    }
    assert(orig.subrange(0, i as int) =~= orig);
    out
}

// ---------------------------------------------------------------------
// Applying edits.

/// Edits that lie within the text, each non-empty in extent order, and
/// disjoint, sorted by the start of what they delete.
pub open spec fn edits_ok(t: Seq<char>, es: Seq<TextEdit>) -> bool {
    &&& forall|k: int|
        0 <= k < es.len() ==> (#[trigger] es[k]).delete.start <= es[k].delete.end <= t.len()
    &&& forall|k: int| 0 < k < es.len() ==> es[k - 1].delete.end <= (#[trigger] es[k]).delete.start
}

/// The text from `pos` on, with `es` applied; `es` start at or after `pos`.
pub open spec fn applied_from(t: Seq<char>, es: Seq<TextEdit>, pos: int) -> Seq<char>
    decreases es.len(),
{
    if es.len() == 0 {
        t.subrange(pos, t.len() as int)
    } else {
        t.subrange(pos, es[0].delete.start as int) + es[0].insert@ + applied_from(
            t,
            es.drop_first(),
            es[0].delete.end as int,
        )
    }
}

/// The text with every edit applied.
pub open spec fn applied(t: Seq<char>, es: Seq<TextEdit>) -> Seq<char> {
    applied_from(t, es, 0)
}

/// Whether the edits are well-formed for the text.
pub fn edits_valid(text: &[char], edits: &Vec<TextEdit>) -> (r: bool)
    ensures
        r == edits_ok(text@, edits@),
{
    let mut i: usize = 0;
    while i < edits.len()
        invariant
            i <= edits@.len(),
            forall|k: int|
                0 <= k < i ==> (#[trigger] edits@[k]).delete.start <= edits@[k].delete.end
                    <= text@.len(),
            forall|k: int|
                0 < k < i ==> edits@[k - 1].delete.end <= (#[trigger] edits@[k]).delete.start,
        decreases edits@.len() - i,
    {
        let e = &edits[i];
        if !(e.delete.start <= e.delete.end && (e.delete.end as usize) <= text.len()) {
            return false;
        }
        if i > 0 && edits[i - 1].delete.end > e.delete.start {
            return false;
        }
        i = i + 1;
    }
    true
}

proof fn lemma_applied_step(t: Seq<char>, es: Seq<TextEdit>, i: int, pos: int)
    requires
        0 <= i < es.len(),
    ensures
        applied_from(t, es.subrange(i, es.len() as int), pos) == t.subrange(
            pos,
            es[i].delete.start as int,
        ) + es[i].insert@ + applied_from(t, es.subrange(i + 1, es.len() as int), es[i].delete.end as int),
{
    assert(es.subrange(i, es.len() as int).drop_first() =~= es.subrange(i + 1, es.len() as int));
}

/// Applies disjoint edits, sorted by the start of what they delete.
pub fn apply_edits(text: &[char], edits: &Vec<TextEdit>) -> (r: Vec<char>)
    requires
        edits_ok(text@, edits@),
    ensures
        r@ == applied(text@, edits@),
{
    let mut out: Vec<char> = Vec::new();
    let mut pos: usize = 0;
    let mut i: usize = 0;
    assert(edits@.subrange(0, edits@.len() as int) =~= edits@);
    while i < edits.len()
        invariant
            edits_ok(text@, edits@),
            i <= edits@.len(),
            pos <= text@.len(),
            i > 0 ==> pos == edits@[i - 1].delete.end,
            i == 0 ==> pos == 0,
            out@ + applied_from(text@, edits@.subrange(i as int, edits@.len() as int), pos as int)
                == applied(text@, edits@),
        decreases edits@.len() - i,
    {
        let e = &edits[i];
        proof {
            lemma_applied_step(text@, edits@, i as int, pos as int);
        }
        let start = e.delete.start as usize;
        let ghost before = out@;
        let mut k: usize = pos;
        while k < start
            invariant
                pos <= k <= start <= text@.len(),
                out@ == before + text@.subrange(pos as int, k as int),
            decreases start - k,
        {
            out.push(text[k]);
            assert(out@ =~= before + text@.subrange(pos as int, k + 1));
            k = k + 1;
        }
        let ins = chars_of(e.insert.as_str());
        let ghost mid = out@;
        let mut j: usize = 0;
        while j < ins.len()
            invariant
                j <= ins@.len(),
                out@ == mid + ins@.subrange(0, j as int),
            decreases ins@.len() - j,
        {
            out.push(ins[j]);
            assert(out@ =~= mid + ins@.subrange(0, j + 1));
            j = j + 1;
        }
        assert(ins@.subrange(0, ins@.len() as int) =~= ins@);
        pos = e.delete.end as usize;
        i = i + 1;
        assert(out@ + applied_from(text@, edits@.subrange(i as int, edits@.len() as int), pos as int)
            =~= applied(text@, edits@));
    }
    let ghost before = out@;
    let mut k: usize = pos;
    while k < text.len()
        invariant
            pos <= k <= text@.len(),
            out@ == before + text@.subrange(pos as int, k as int),
        decreases text@.len() - k,
    {
        out.push(text[k]);
        assert(out@ =~= before + text@.subrange(pos as int, k + 1));
        k = k + 1;
    }
    assert(edits@.subrange(i as int, edits@.len() as int) =~= Seq::<TextEdit>::empty());
    assert(out@ =~= applied(text@, edits@));
    out
}

/// Applying no edits leaves the text as it is.
pub proof fn lemma_no_edits_no_change(t: Seq<char>)
    ensures
        applied(t, Seq::empty()) == t,
{
    assert(t.subrange(0, t.len() as int) =~= t);
}

// ---------------------------------------------------------------------
// Choosing fixes.

#[derive(Debug)]
pub enum CodemodError {
    /// The diagnostic to fix carries no fix.
    NoFixes { code: DiagnosticCode },
    /// Fixes were still being found after the last permitted iteration.
    RecursionLimit,
    /// A file grew beyond the offsets that diagnostics can address.
    TextTooLarge,
}

/// The edits of the first fix of the first diagnostic, if any diagnostic is
/// selected.
pub open spec fn first_fix_edits(ds: Seq<Diagnostic>) -> Option<Option<Seq<TextEdit>>> {
    if ds.len() == 0 {
        None
    } else {
        match ds[0].fixes {
            Some(f) => if f@.len() > 0 {
                Some(Some(f@[0].edits@))
            } else {
                Some(None)
            },
            None => Some(None),
        }
    }
}

/// The fix to apply to a file: the first fix of its first diagnostic, so
/// that one iteration never applies conflicting edits. `Ok(None)` when no
/// diagnostic is selected, an error when the first one has no fix.
pub fn choose_fix(ds: Vec<Diagnostic>) -> (r: Result<Option<Vec<TextEdit>>, CodemodError>)
    ensures
        match r {
            Ok(None) => first_fix_edits(ds@) is None,
            Ok(Some(es)) => first_fix_edits(ds@) == Some(Some(es@)),
            Err(_) => first_fix_edits(ds@) == Some(None::<Seq<TextEdit>>),
        },
{
    if ds.len() == 0 {
        return Ok(None);
    }
    let mut ds = ds;
    let d = ds.remove(0);
    match d.fixes {
        Some(f) => {
            if f.len() > 0 {
                let mut f = f;
                let first = f.remove(0);
                Ok(Some(first.edits))
            } else {
                Err(CodemodError::NoFixes { code: d.code })
            }
        },
        None => Err(CodemodError::NoFixes { code: d.code }),
    }
}

// ---------------------------------------------------------------------
// Iterating to a fixed point.

/// What the driver does after an iteration.
#[derive(Debug, Clone, Copy, PartialEq, Eq, Structural)]
pub enum Decision {
    /// Nothing changed (or one pass was asked for): stop with the result.
    Converged,
    /// Re-run the diagnostics on the changed files and apply again.
    Continue,
    /// Still changing after the last permitted iteration.
    Exhausted,
}

pub open spec fn decision(iteration: u32, changed: bool, recursive: bool) -> Decision {
    if !changed || !recursive {
        Decision::Converged
    } else if iteration >= LINT_APPLICATION_RECURSION_LIMIT {
        Decision::Exhausted
    } else {
        Decision::Continue
    }
}

/// The decision after iteration `iteration` (counted from 1), given
/// whether it changed any file.
pub fn decide(iteration: u32, changed: bool, recursive: bool) -> (r: Decision)
    ensures
        r == decision(iteration, changed, recursive),
{
    if !changed || !recursive {
        Decision::Converged
    } else if iteration >= LINT_APPLICATION_RECURSION_LIMIT {
        Decision::Exhausted
    } else {
        Decision::Continue
    }
}

/// What the fix oracle answers for a file.
pub type FixAnswer = Result<Option<Vec<TextEdit>>, CodemodError>;

/// The answer changes text `t`: its edits are well-formed for `t` and
/// there is at least one.
pub open spec fn changes(t: Seq<char>, x: FixAnswer) -> bool {
    match x {
        Ok(Some(es)) => edits_ok(t, es@) && es@.len() > 0,
        _ => false,
    }
}

/// The text after one answer: the edits applied when they change it, the
/// text itself otherwise.
pub open spec fn after_fix(t: Seq<char>, x: FixAnswer) -> Seq<char> {
    match x {
        Ok(Some(es)) => if changes(t, x) {
            applied(t, es@)
        } else {
            t
        },
        _ => t,
    }
}

/// The answer leaves the file as it is, without error.
pub open spec fn quiet(t: Seq<char>, x: FixAnswer) -> bool {
    x is Ok && !changes(t, x)
}

/// Every answer the oracle may give for `t` leaves it as it is: the file
/// has nothing left to fix.
pub open spec fn settled<F>(f: F, t: Vec<char>) -> bool where
    F: Fn(&Vec<char>) -> FixAnswer,
 {
    forall|x: FixAnswer| call_ensures(f, (&t,), x) ==> quiet(t@, x)
}

/// No file has anything left to fix.
pub open spec fn all_settled<F>(f: F, files: Seq<Vec<char>>) -> bool where
    F: Fn(&Vec<char>) -> FixAnswer,
 {
    forall|k: int| 0 <= k < files.len() ==> settled(f, #[trigger] files[k])
}

/// The oracle answered for `t` in a way that leaves it as it is.
pub open spec fn answered_quiet<F>(f: F, t: Vec<char>) -> bool where
    F: Fn(&Vec<char>) -> FixAnswer,
 {
    exists|x: FixAnswer| call_ensures(f, (&t,), x) && quiet(t@, x)
}

/// Whether the oracle leaves a text as it is depends on the text alone.
pub open spec fn quiet_by_text<F>(f: F) -> bool where F: Fn(&Vec<char>) -> FixAnswer {
    forall|t1: Vec<char>, t2: Vec<char>, x1: FixAnswer, x2: FixAnswer|
        t1@ == t2@ && call_ensures(f, (&t1,), x1) && call_ensures(f, (&t2,), x2) ==> quiet(t1@, x1)
            == quiet(t2@, x2)
}

/// Every answer of the oracle changes the file it is asked about.
pub open spec fn always_changes<F>(f: F) -> bool where F: Fn(&Vec<char>) -> FixAnswer {
    forall|t: Vec<char>, x: FixAnswer| call_ensures(f, (&t,), x) ==> changes(t@, x)
}

/// The files a successful recursive codemod returns have nothing left to
/// fix, so a second run on them, with an oracle whose quiet answers depend
/// on the text alone, returns them unchanged after one iteration (see
/// `run_codemod`).
pub proof fn lemma_codemod_idempotent<F>(f: F, files: Seq<Vec<char>>) where
    F: Fn(&Vec<char>) -> FixAnswer,

    requires
        quiet_by_text(f),
        forall|k: int| 0 <= k < files.len() ==> answered_quiet(f, #[trigger] files[k]),
    ensures
        all_settled(f, files),
{
    assert forall|k: int| 0 <= k < files.len() implies settled(f, #[trigger] files[k]) by {
        let x0 = choose|x: FixAnswer| call_ensures(f, (&files[k],), x) && quiet(files[k]@, x);
        assert forall|x: FixAnswer| call_ensures(f, (&files[k],), x) implies quiet(files[k]@, x) by {
            assert(quiet(files[k]@, x0) == quiet(files[k]@, x));
        }
    }
}

/// One iteration: asks `fix_for` for the fix of each file in turn and
/// applies it when its edits are well-formed for the file; ill-formed fixes
/// are skipped. Tells whether any file changed.
fn apply_round<F>(files: &mut Vec<Vec<char>>, fix_for: &F) -> (r: Result<bool, CodemodError>) where
    F: Fn(&Vec<char>) -> FixAnswer,

    requires
        forall|t: &Vec<char>| call_requires(*fix_for, (t,)),
    ensures
        final(files)@.len() == old(files)@.len(),
        r == Ok::<bool, CodemodError>(false) ==> *final(files) == *old(files),
        r == Ok::<bool, CodemodError>(false) ==> forall|k: int|
            0 <= k < old(files)@.len() ==> answered_quiet(*fix_for, #[trigger] old(files)@[k]),
        all_settled(*fix_for, old(files)@) ==> r == Ok::<bool, CodemodError>(false),
        old(files)@.len() > 0 && always_changes(*fix_for) ==> r == Ok::<bool, CodemodError>(true),
{
    let mut changed = false;
    let mut i: usize = 0;
    let ghost start = files@;
    while i < files.len()
        invariant
            i <= files@.len(),
            start == old(files)@,
            files@.len() == start.len(),
            !changed ==> *files == *old(files),
            forall|m: int| i <= m < start.len() ==> files@[m] == start[m],
            !changed ==> forall|m: int| 0 <= m < i ==> answered_quiet(*fix_for, #[trigger] start[m]),
            all_settled(*fix_for, start) ==> !changed,
            i > 0 && always_changes(*fix_for) ==> changed,
            forall|t: &Vec<char>| call_requires(*fix_for, (t,)),
        decreases files@.len() - i,
    {
        assert(files@[i as int] == start[i as int]);
        let ghost prev = files@;
        let fix = fix_for(&files[i]);
        let ghost x = fix;
        proof {
            if all_settled(*fix_for, start) {
                assert(settled(*fix_for, start[i as int]));
                assert(quiet(start[i as int]@, x));
            }
        }
        match fix {
            Err(e) => {
                proof {
                    assert(call_ensures(*fix_for, (&start[i as int],), x));
                    if all_settled(*fix_for, start) {
                        assert(settled(*fix_for, start[i as int]));
                    }
                    if always_changes(*fix_for) {
                        assert(changes(start[i as int]@, x));
                    }
                }
                return Err(e);
            },
            Ok(None) => {
                proof {
                    assert(files@[i as int]@ == after_fix(start[i as int]@, x));
                    assert(quiet(start[i as int]@, x));
                }
            },
            Ok(Some(edits)) => {
                if edits_valid(files[i].as_slice(), &edits) && edits.len() > 0 {
                    let new_text = apply_edits(files[i].as_slice(), &edits);
                    let ghost before = files@;
                    files.set(i, new_text);
                    changed = true;
                } else {
                    proof {
                        assert(quiet(start[i as int]@, x));
                    }
                }
            },
        }
        proof {
            assert(call_ensures(*fix_for, (&start[i as int],), x));
            assert(files@[i as int]@ == after_fix(start[i as int]@, x));
            if always_changes(*fix_for) {
                assert(changes(start[i as int]@, x));
            }
        }
        i = i + 1;
    }
    Ok(changed)
}

/// Applies fixes until no file changes (after one iteration unless
/// `recursive`), at most ten iterations; returns the files and the number
/// of iterations made. Files with nothing to fix come back as they are
/// after one iteration; a recursive run that ends well ends on files for
/// which the oracle answered no change; an oracle that always changes the
/// files makes a recursive run fail once the tenth iteration still changed
/// something.
pub fn run_codemod<F>(files: Vec<Vec<char>>, fix_for: F, recursive: bool) -> (r: Result<
    (Vec<Vec<char>>, u32),
    CodemodError,
>) where F: Fn(&Vec<char>) -> FixAnswer
    requires
        forall|t: &Vec<char>| call_requires(fix_for, (t,)),
    ensures
        r is Ok ==> r->Ok_0.0@.len() == files@.len(),
        r is Ok ==> 1 <= r->Ok_0.1 <= LINT_APPLICATION_RECURSION_LIMIT,
        r is Ok && !recursive ==> r->Ok_0.1 == 1,
        r is Ok && recursive ==> forall|k: int|
            0 <= k < files@.len() ==> answered_quiet(fix_for, #[trigger] r->Ok_0.0@[k]),
        all_settled(fix_for, files@) ==> r == Ok::<(Vec<Vec<char>>, u32), CodemodError>((files, 1)),
        recursive && files@.len() > 0 && always_changes(fix_for) ==> r
            == Err::<(Vec<Vec<char>>, u32), CodemodError>(CodemodError::RecursionLimit),
{
    let ghost len = files@.len();
    let ghost input = files;
    let mut current = files;
    let mut iteration: u32 = 1;
    loop
        invariant
            current@.len() == len,
            len == files@.len(),
            input == files,
            1 <= iteration <= LINT_APPLICATION_RECURSION_LIMIT,
            !recursive ==> iteration == 1,
            iteration == 1 ==> current == input,
            iteration > 1 ==> !all_settled(fix_for, files@),
            forall|t: &Vec<char>| call_requires(fix_for, (t,)),
        decreases LINT_APPLICATION_RECURSION_LIMIT - iteration,
    {
        let ghost before = current@;
        let changed = match apply_round(&mut current, &fix_for) {
            Ok(c) => c,
            Err(e) => {
                proof {
                    if iteration == 1 {
                        assert(before == files@);
                    }
                }
                return Err(e);
            },
        };
        match decide(iteration, changed, recursive) {
            Decision::Converged => {
                proof {
                    if recursive {
                        assert(current@ == before);
                    }
                    if iteration == 1 {
                        assert(before == files@);
                    }
                }
                return Ok((current, iteration));
            },
            Decision::Exhausted => {
                return Err(CodemodError::RecursionLimit);
            },
            Decision::Continue => {
                iteration = iteration + 1;
            },
        }
    }
}

} // verus!
