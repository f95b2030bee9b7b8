//! A light scanner of source text into tokens and top-level forms, and the
//! form-level diagnostics computed from them: a missing module declaration,
//! and missing separators between list elements, export entries, function
//! clauses, type parameters and after a record name.

use vstd::prelude::*;

use crate::code::DiagnosticCode;
use crate::code::Severity;
use crate::diagnostics::Diagnostic;
use crate::diagnostics::TextRange;
use crate::diagnostics::TextEdit;
use crate::diagnostics::Assist;
use crate::codemod::edits_ok;
use crate::text::chars_of;
use crate::text::string_of;
use crate::text::sub_chars;
use crate::codemod::line_number;
use crate::codemod::line_of;
use crate::text::is_white_char;
use crate::text::is_white;

verus! {

#[derive(Clone, Copy, Debug, PartialEq, Eq, Structural)]
pub enum TokenKind {
    /// An atom or keyword, bare or quoted.
    Atom,
    Var,
    Number,
    /// A string or character literal.
    Str,
    /// The full stop that ends a form.
    Dot,
    Punct(char),
}

#[derive(Clone, Copy, Debug, PartialEq, Eq, Structural)]
pub struct Token {
    pub kind: TokenKind,
    pub start: usize,
    pub end: usize,
}

/// Tokens lie in the text, in order, without overlap, each non-empty.
#[verifier::opaque]
pub open spec fn tokens_ok(t: Seq<char>, toks: Seq<Token>) -> bool {
    &&& forall|k: int| 0 <= k < toks.len() ==> (#[trigger] toks[k]).start < toks[k].end <= t.len()
    &&& forall|k: int| 0 < k < toks.len() ==> toks[k - 1].end <= (#[trigger] toks[k]).start
}

/// Each punctuation token and full stop is the one character it stands for.
pub open spec fn puncts_ok(t: Seq<char>, toks: Seq<Token>) -> bool {
    forall|k: int|
        0 <= k < toks.len() ==> match (#[trigger] toks[k]).kind {
            TokenKind::Punct(c) => t[toks[k].start as int] == c && toks[k].end == toks[k].start + 1,
            TokenKind::Dot => t[toks[k].start as int] == '.' && toks[k].end == toks[k].start + 1,
            _ => true,
        }
}

pub open spec fn is_lower(c: char) -> bool {
    'a' <= c && c <= 'z'
}

pub open spec fn is_upper_or_underscore(c: char) -> bool {
    ('A' <= c && c <= 'Z') || c == '_'
}

pub open spec fn is_digit(c: char) -> bool {
    '0' <= c && c <= '9'
}

pub open spec fn is_name_char(c: char) -> bool {
    is_lower(c) || is_upper_or_underscore(c) || is_digit(c) || c == '@'
}

fn name_char(c: char) -> (r: bool)
    ensures
        r == is_name_char(c),
{
    ('a' <= c && c <= 'z') || ('A' <= c && c <= 'Z') || c == '_' || ('0' <= c && c <= '9') || c
        == '@'
}

/// The end of the run of name characters from `i`.
pub open spec fn run_end_spec(t: Seq<char>, i: int) -> int
    decreases t.len() - i,
{
    if 0 <= i < t.len() && is_name_char(t[i]) {
        run_end_spec(t, i + 1)
    } else {
        i
    }
}

/// Scanning a quoted literal from `j`: past the closing `q`, skipping
/// escaped characters, or the end of the text.
pub open spec fn quoted_scan(t: Seq<char>, j: int, q: char) -> int
    decreases t.len() - j,
{
    if j < 0 || j >= t.len() {
        j
    } else if t[j] == q {
        j + 1
    } else if t[j] == '\\' && j + 1 < t.len() {
        quoted_scan(t, j + 2, q)
    } else {
        quoted_scan(t, j + 1, q)
    }
}

/// The end of a comment that starts at `j`: the next line break, or the
/// end of the text.
pub open spec fn comment_end(t: Seq<char>, j: int) -> int
    decreases t.len() - j,
{
    if j < 0 || j >= t.len() || t[j] == '\n' {
        j
    } else {
        comment_end(t, j + 1)
    }
}

/// The kind and end of the token that starts at `i`: an atom (lower-case
/// or quoted), a variable, a number (with an optional fraction), a string
/// or character literal, the full stop ending a form (a `.` before white
/// space, a comment or the end), or one punctuation character.
pub open spec fn lex(t: Seq<char>, i: int) -> (TokenKind, int) {
    let c = t[i];
    let (k, e) = if is_lower(c) {
        (TokenKind::Atom, run_end_spec(t, i))
    } else if is_upper_or_underscore(c) {
        (TokenKind::Var, run_end_spec(t, i))
    } else if is_digit(c) {
        let e0 = run_end_spec(t, i);
        if e0 + 1 < t.len() && t[e0] == '.' && is_digit(t[e0 + 1]) {
            (TokenKind::Number, run_end_spec(t, e0 + 1))
        } else {
            (TokenKind::Number, e0)
        }
    } else if c == '\'' {
        (TokenKind::Atom, quoted_scan(t, i + 1, '\''))
    } else if c == '"' {
        (TokenKind::Str, quoted_scan(t, i + 1, '"'))
    } else if c == '$' {
        (
            TokenKind::Str,
            if i + 2 < t.len() && t[i + 1] == '\\' {
                i + 3
            } else if i + 1 < t.len() {
                i + 2
            } else {
                i + 1
            },
        )
    } else if c == '.' && (i + 1 == t.len() || is_white(t[i + 1]) || t[i + 1] == '%') {
        (TokenKind::Dot, i + 1)
    } else {
        (TokenKind::Punct(c), i + 1)
    };
    if e <= i {
        (k, i + 1)
    } else {
        (k, e)
    }
}

/// The tokens of `t` from position `i` on, leaving out white space and
/// comments.
pub open spec fn tokens_from(t: Seq<char>, i: int) -> Seq<Token>
    decreases t.len() - i,
{
    if i < 0 || i >= t.len() {
        Seq::empty()
    } else if is_white(t[i]) {
        tokens_from(t, i + 1)
    } else if t[i] == '%' {
        if i < comment_end(t, i) <= t.len() {
            tokens_from(t, comment_end(t, i))
        } else {
            Seq::empty()
        }
    } else if i < lex(t, i).1 <= t.len() {
        seq![Token { kind: lex(t, i).0, start: i as usize, end: lex(t, i).1 as usize }]
            + tokens_from(t, lex(t, i).1)
    } else {
        Seq::empty()
    }
}

/// The tokens of a text.
pub open spec fn tokens_of(t: Seq<char>) -> Seq<Token> {
    tokens_from(t, 0)
}

fn run_end(t: &[char], i: usize) -> (r: usize)
    requires
        i <= t@.len() <= u32::MAX,
    ensures
        i <= r <= t@.len(),
        r as int == run_end_spec(t@, i as int),
{
    let mut j = i;
    while j < t.len() && name_char(t[j])
        invariant
            i <= j <= t@.len(),
            run_end_spec(t@, j as int) == run_end_spec(t@, i as int),
        decreases t@.len() - j,
    {
        j = j + 1;
    }
    j
}

fn quoted_end(t: &[char], i: usize, q: char) -> (r: usize)
    requires
        i < t@.len() <= u32::MAX,
    ensures
        i < r <= t@.len(),
        r as int == quoted_scan(t@, i + 1, q),
{
    let mut j = i + 1;
    while j < t.len() && t[j] != q
        invariant
            i < j <= t@.len(),
            quoted_scan(t@, j as int, q) == quoted_scan(t@, i + 1, q),
        decreases t@.len() - j,
    {
        if t[j] == '\\' && j + 1 < t.len() {
            j = j + 2;
        } else {
            j = j + 1;
        }
    }
    if j < t.len() {
        j + 1
    } else {
        j
    }
}

fn next_token(t: &[char], i: usize) -> (r: (TokenKind, usize))
    requires
        i < t@.len() <= u32::MAX,
    ensures
        i < r.1 <= t@.len(),
        r.0 == lex(t@, i as int).0,
        r.1 as int == lex(t@, i as int).1,
        match r.0 {
            TokenKind::Punct(p) => p == t@[i as int] && r.1 == i + 1,
            TokenKind::Dot => t@[i as int] == '.' && r.1 == i + 1,
            _ => true,
        },
{
    let c = t[i];
    let (kind, end) = if 'a' <= c && c <= 'z' {
        (TokenKind::Atom, run_end(t, i))
    } else if ('A' <= c && c <= 'Z') || c == '_' {
        (TokenKind::Var, run_end(t, i))
    } else if '0' <= c && c <= '9' {
        let mut e = run_end(t, i);
        if t.len() > 0 && e < t.len() - 1 && t[e] == '.' && '0' <= t[e + 1] && t[e + 1] <= '9' {
            e = run_end(t, e + 1);
        }
        (TokenKind::Number, e)
    } else if c == '\'' {
        (TokenKind::Atom, quoted_end(t, i, '\''))
    } else if c == '"' {
        (TokenKind::Str, quoted_end(t, i, '"'))
    } else if c == '$' {
        let e = if t.len() >= 2 && i < t.len() - 2 && t[i + 1] == '\\' {
            i + 3
        } else if i + 1 < t.len() {
            i + 2
        } else {
            i + 1
        };
        (TokenKind::Str, e)
    } else if c == '.' && (i + 1 == t.len() || is_white_char(t[i + 1]) || t[i + 1] == '%') {
        (TokenKind::Dot, i + 1)
    } else {
        (TokenKind::Punct(c), i + 1)
    };
    if end <= i {
        (kind, i + 1)
    } else {
        (kind, end)
    }
}

/// Splits text into tokens, leaving out white space and comments.
#[verifier::rlimit(100)]
pub fn tokenize(t: &[char]) -> (r: Vec<Token>)
    requires
        t@.len() <= u32::MAX,
    ensures
        r@ == tokens_of(t@),
        tokens_ok(t@, r@),
        puncts_ok(t@, r@),
{
    let mut toks: Vec<Token> = Vec::new();
    let mut i: usize = 0;
    proof {
        reveal(tokens_ok);
    }
    while i < t.len()
        invariant
            i <= t@.len() <= u32::MAX,
            tokens_ok(t@, toks@),
            puncts_ok(t@, toks@),
            toks@.len() > 0 ==> toks@.last().end <= i,
            toks@ + tokens_from(t@, i as int) == tokens_of(t@),
        decreases t@.len() - i,
    {
        let c = t[i];
        if is_white_char(c) {
            i = i + 1;
        } else if c == '%' {
            let mut j = i;
            while j < t.len() && t[j] != '\n'
                invariant
                    i <= j <= t@.len(),
                    comment_end(t@, j as int) == comment_end(t@, i as int),
                decreases t@.len() - j,
            {
                j = j + 1;
            }
            i = j;
        } else {
            let (kind, end) = next_token(t, i);
            let tok = Token { kind, start: i, end };
            let ghost old_toks = toks@;
            toks.push(tok);
            reveal(tokens_ok);
            assert forall|k: int| 0 < k < toks@.len() implies toks@[k - 1].end <= (
            #[trigger] toks@[k]).start by {
                if k < toks@.len() - 1 {
                    assert(old_toks[k] == toks@[k]);
                }
            }
            assert(toks@ + tokens_from(t@, end as int) =~= old_toks + tokens_from(t@, i as int));
            i = end;
        }
    }
    assert(tokens_from(t@, i as int) =~= Seq::<Token>::empty());
    assert(toks@ + Seq::<Token>::empty() =~= toks@);
    toks
}

// ---------------------------------------------------------------------
// Forms.

/// A top-level form: the tokens `first..=last`, `last` being its full stop
/// or the last token of the text.
#[derive(Clone, Copy, Debug, PartialEq, Eq, Structural)]
pub struct Form {
    pub first: usize,
    pub last: usize,
}

pub open spec fn forms_ok(toks: Seq<Token>, forms: Seq<Form>) -> bool {
    &&& forall|k: int| 0 <= k < forms.len() ==> (#[trigger] forms[k]).first <= forms[k].last < toks.len()
    &&& forall|k: int| 0 < k < forms.len() ==> forms[k - 1].last < (#[trigger] forms[k]).first
}

/// The forms of tokens `i..`, the current one starting at `first`: each
/// ends at a full stop or at the last token.
pub open spec fn forms_from(toks: Seq<Token>, first: int, i: int) -> Seq<Form>
    decreases toks.len() - i,
{
    if i < 0 || i >= toks.len() {
        Seq::empty()
    } else if toks[i].kind == TokenKind::Dot || i + 1 == toks.len() {
        seq![Form { first: first as usize, last: i as usize }] + forms_from(toks, i + 1, i + 1)
    } else {
        forms_from(toks, first, i + 1)
    }
}

pub open spec fn forms_of(toks: Seq<Token>) -> Seq<Form> {
    forms_from(toks, 0, 0)
}

/// Groups tokens into forms, each ending at a full stop.
pub fn split_forms(toks: &Vec<Token>) -> (r: Vec<Form>)
    ensures
        r@ == forms_of(toks@),
        forms_ok(toks@, r@),
{
    let mut forms: Vec<Form> = Vec::new();
    let mut first: usize = 0;
    let mut i: usize = 0;
    while i < toks.len()
        invariant
            first <= i <= toks@.len(),
            forms_ok(toks@, forms@),
            forms@.len() > 0 ==> forms@.last().last < first,
            forms@ + forms_from(toks@, first as int, i as int) == forms_of(toks@),
        decreases toks@.len() - i,
    {
        let ghost before = forms@;
        if toks[i].kind == TokenKind::Dot || i + 1 == toks.len() {
            forms.push(Form { first, last: i });
            assert(forms@ + forms_from(toks@, i + 1, i + 1) =~= before + forms_from(
                toks@,
                first as int,
                i as int,
            ));
            first = i + 1;
        }
        i = i + 1;
    }
    assert(forms@ + Seq::<Form>::empty() =~= forms@);
    forms
}

pub open spec fn form_range(toks: Seq<Token>, f: Form) -> (int, int) {
    (toks[f.first as int].start as int, toks[f.last as int].end as int)
}

/// Whether `t[tok]` spells `word`.
pub(crate) fn token_is(t: &[char], tok: Token, word: &[char]) -> (r: bool)
    ensures
        r == (tok.start <= tok.end <= t@.len() && t@.subrange(tok.start as int, tok.end as int)
            == word@),
{
    if !(tok.start <= tok.end && tok.end <= t.len()) {
        return false;
    }
    if tok.end - tok.start != word.len() {
        return false;
    }
    let mut k: usize = 0;
    while k < word.len()
        invariant
            tok.end - tok.start == word@.len(),
            tok.start <= tok.end <= t@.len(),
            k <= word@.len(),
            forall|m: int| 0 <= m < k ==> t@[tok.start + m] == word@[m],
        decreases word@.len() - k,
    {
        if t[tok.start + k] != word[k] {
            assert(t@.subrange(tok.start as int, tok.end as int)[k as int] != word@[k as int]);
            return false;
        }
        k = k + 1;
    }
    assert(t@.subrange(tok.start as int, tok.end as int) =~= word@);
    true
}

#[derive(Clone, Copy, Debug, PartialEq, Eq, Structural)]
pub enum FormKind {
    Module,
    /// `-file(...)` and the preprocessor directives.
    Directive,
    Export,
    ExportType,
    Import,
    Record,
    TypeAlias,
    Spec,
    /// `-doc` and `-moduledoc`.
    DocAttribute,
    FunDecl,
    Other,
}

/// The text of a token, when it lies in the text.
pub open spec fn token_text(t: Seq<char>, tok: Token) -> Option<Seq<char>> {
    if tok.start <= tok.end <= t.len() {
        Some(t.subrange(tok.start as int, tok.end as int))
    } else {
        None
    }
}

/// The attribute names of the file attribute and the preprocessor
/// directives.
pub open spec fn is_directive_word(w: Seq<char>) -> bool {
    w == seq!['f', 'i', 'l', 'e']
        || w == seq!['d', 'e', 'f', 'i', 'n', 'e']
        || w == seq!['u', 'n', 'd', 'e', 'f']
        || w == seq!['i', 'f', 'd', 'e', 'f']
        || w == seq!['i', 'f', 'n', 'd', 'e', 'f']
        || w == seq!['e', 'l', 's', 'e']
        || w == seq!['e', 'n', 'd', 'i', 'f']
        || w == seq!['i', 'f']
        || w == seq!['e', 'l', 'i', 'f']
        || w == seq!['i', 'n', 'c', 'l', 'u', 'd', 'e']
        || w == seq!['i', 'n', 'c', 'l', 'u', 'd', 'e', '_', 'l', 'i', 'b']
}

/// The kind of form an attribute of name `w` makes.
pub open spec fn attribute_kind(w: Seq<char>) -> FormKind {
    if w == seq!['m', 'o', 'd', 'u', 'l', 'e'] {
        FormKind::Module
    } else if w == seq!['e', 'x', 'p', 'o', 'r', 't'] {
        FormKind::Export
    } else if w == seq!['e', 'x', 'p', 'o', 'r', 't', '_', 't', 'y', 'p', 'e'] {
        FormKind::ExportType
    } else if w == seq!['i', 'm', 'p', 'o', 'r', 't'] {
        FormKind::Import
    } else if w == seq!['r', 'e', 'c', 'o', 'r', 'd'] {
        FormKind::Record
    } else if w == seq!['t', 'y', 'p', 'e'] || w == seq!['o', 'p', 'a', 'q', 'u', 'e'] {
        FormKind::TypeAlias
    } else if w == seq!['s', 'p', 'e', 'c'] {
        FormKind::Spec
    } else if w == seq!['d', 'o', 'c'] || w == seq!['m', 'o', 'd', 'u', 'l', 'e', 'd', 'o', 'c'] {
        FormKind::DocAttribute
    } else if is_directive_word(w) {
        FormKind::Directive
    } else {
        FormKind::Other
    }
}

/// The kind of a form: a function declaration when it starts with an
/// atom, else by the name of the attribute `-name`.
pub open spec fn form_kind_spec(t: Seq<char>, toks: Seq<Token>, f: Form) -> FormKind {
    let head = toks[f.first as int];
    if head.kind == TokenKind::Atom {
        FormKind::FunDecl
    } else if head.kind != TokenKind::Punct('-') || f.first >= f.last {
        FormKind::Other
    } else if toks[f.first + 1].kind != TokenKind::Atom {
        FormKind::Other
    } else {
        match token_text(t, toks[f.first + 1]) {
            Some(w) => attribute_kind(w),
            None => FormKind::Other,
        }
    }
}

fn is_directive_name(t: &[char], name: Token) -> (r: bool)
    requires
        name.start <= name.end <= t@.len(),
    ensures
        r == is_directive_word(t@.subrange(name.start as int, name.end as int)),
{
    let w = ['f', 'i', 'l', 'e'];
    assert(w@ =~= seq!['f', 'i', 'l', 'e']);
    if token_is(t, name, &w) {
        return true;
    }
    let w = ['d', 'e', 'f', 'i', 'n', 'e'];
    assert(w@ =~= seq!['d', 'e', 'f', 'i', 'n', 'e']);
    if token_is(t, name, &w) {
        return true;
    }
    let w = ['u', 'n', 'd', 'e', 'f'];
    assert(w@ =~= seq!['u', 'n', 'd', 'e', 'f']);
    if token_is(t, name, &w) {
        return true;
    }
    let w = ['i', 'f', 'd', 'e', 'f'];
    assert(w@ =~= seq!['i', 'f', 'd', 'e', 'f']);
    if token_is(t, name, &w) {
        return true;
    }
    let w = ['i', 'f', 'n', 'd', 'e', 'f'];
    assert(w@ =~= seq!['i', 'f', 'n', 'd', 'e', 'f']);
    if token_is(t, name, &w) {
        return true;
    }
    let w = ['e', 'l', 's', 'e'];
    assert(w@ =~= seq!['e', 'l', 's', 'e']);
    if token_is(t, name, &w) {
        return true;
    }
    let w = ['e', 'n', 'd', 'i', 'f'];
    assert(w@ =~= seq!['e', 'n', 'd', 'i', 'f']);
    if token_is(t, name, &w) {
        return true;
    }
    let w = ['i', 'f'];
    assert(w@ =~= seq!['i', 'f']);
    if token_is(t, name, &w) {
        return true;
    }
    let w = ['e', 'l', 'i', 'f'];
    assert(w@ =~= seq!['e', 'l', 'i', 'f']);
    if token_is(t, name, &w) {
        return true;
    }
    let w = ['i', 'n', 'c', 'l', 'u', 'd', 'e'];
    assert(w@ =~= seq!['i', 'n', 'c', 'l', 'u', 'd', 'e']);
    if token_is(t, name, &w) {
        return true;
    }
    let w = ['i', 'n', 'c', 'l', 'u', 'd', 'e', '_', 'l', 'i', 'b'];
    assert(w@ =~= seq!['i', 'n', 'c', 'l', 'u', 'd', 'e', '_', 'l', 'i', 'b']);
    if token_is(t, name, &w) {
        return true;
    }
    false
}

/// What kind of form starts at token `first`.
pub fn form_kind(t: &[char], toks: &Vec<Token>, f: Form) -> (r: FormKind)
    requires
        f.first <= f.last < toks@.len(),
    ensures
        r == form_kind_spec(t@, toks@, f),
        r == FormKind::FunDecl ==> toks@[f.first as int].kind == TokenKind::Atom,
{
    let head = toks[f.first];
    if head.kind == TokenKind::Atom {
        return FormKind::FunDecl;
    }
    if !(head.kind == TokenKind::Punct('-')) || f.first >= f.last {
        return FormKind::Other;
    }
    let name = toks[f.first + 1];
    if name.kind != TokenKind::Atom {
        return FormKind::Other;
    }
    if !(name.start <= name.end && name.end <= t.len()) {
        return FormKind::Other;
    }
    let w = ['m', 'o', 'd', 'u', 'l', 'e'];
    assert(w@ =~= seq!['m', 'o', 'd', 'u', 'l', 'e']);
    if token_is(t, name, &w) {
        return FormKind::Module;
    }
    let w = ['e', 'x', 'p', 'o', 'r', 't'];
    assert(w@ =~= seq!['e', 'x', 'p', 'o', 'r', 't']);
    if token_is(t, name, &w) {
        return FormKind::Export;
    }
    let w = ['e', 'x', 'p', 'o', 'r', 't', '_', 't', 'y', 'p', 'e'];
    assert(w@ =~= seq!['e', 'x', 'p', 'o', 'r', 't', '_', 't', 'y', 'p', 'e']);
    if token_is(t, name, &w) {
        return FormKind::ExportType;
    }
    let w = ['i', 'm', 'p', 'o', 'r', 't'];
    assert(w@ =~= seq!['i', 'm', 'p', 'o', 'r', 't']);
    if token_is(t, name, &w) {
        return FormKind::Import;
    }
    let w = ['r', 'e', 'c', 'o', 'r', 'd'];
    assert(w@ =~= seq!['r', 'e', 'c', 'o', 'r', 'd']);
    if token_is(t, name, &w) {
        return FormKind::Record;
    }
    let w = ['t', 'y', 'p', 'e'];
    assert(w@ =~= seq!['t', 'y', 'p', 'e']);
    if token_is(t, name, &w) {
        return FormKind::TypeAlias;
    }
    let w = ['o', 'p', 'a', 'q', 'u', 'e'];
    assert(w@ =~= seq!['o', 'p', 'a', 'q', 'u', 'e']);
    if token_is(t, name, &w) {
        return FormKind::TypeAlias;
    }
    let w = ['s', 'p', 'e', 'c'];
    assert(w@ =~= seq!['s', 'p', 'e', 'c']);
    if token_is(t, name, &w) {
        return FormKind::Spec;
    }
    let w = ['d', 'o', 'c'];
    assert(w@ =~= seq!['d', 'o', 'c']);
    if token_is(t, name, &w) {
        return FormKind::DocAttribute;
    }
    let w = ['m', 'o', 'd', 'u', 'l', 'e', 'd', 'o', 'c'];
    assert(w@ =~= seq!['m', 'o', 'd', 'u', 'l', 'e', 'd', 'o', 'c']);
    if token_is(t, name, &w) {
        return FormKind::DocAttribute;
    }
    if is_directive_name(t, name) {
        FormKind::Directive
    } else {
        FormKind::Other
    }
}

/// The diagnostics reported by the form-level passes lie in the text.
pub open spec fn ranges_within(t: Seq<char>, ds: Seq<Diagnostic>) -> bool {
    forall|k: int| 0 <= k < ds.len() ==> (#[trigger] ds[k]).range.start <= ds[k].range.end <= t.len()
}

/// The first form that is not a directive, when it comes before any
/// module declaration.
pub open spec fn first_form_before_module(kinds: Seq<FormKind>) -> Option<int>
    decreases kinds.len(),
{
    if kinds.len() == 0 {
        None
    } else if kinds[0] == FormKind::Directive {
        match first_form_before_module(kinds.drop_first()) {
            Some(k) => Some(k + 1),
            None => None,
        }
    } else if kinds[0] == FormKind::Module {
        None
    } else {
        Some(0)
    }
}

pub open spec fn no_module_message() -> Seq<char> {
    seq!['n', 'o', ' ', 'm', 'o', 'd', 'u', 'l', 'e', ' ', 'd', 'e', 'f', 'i', 'n', 'i', 't', 'i', 'o', 'n']
}

/// Reports the first form of a module that is neither a directive nor
/// preceded by the module declaration.
pub fn no_module_definition_diagnostic(
    diagnostics: &mut Vec<Diagnostic>,
    t: &[char],
    toks: &Vec<Token>,
    forms: &Vec<Form>,
    kinds: &Vec<FormKind>,
)
    requires
        t@.len() <= u32::MAX,
        tokens_ok(t@, toks@),
        forms_ok(toks@, forms@),
        kinds@.len() == forms@.len(),
    ensures
        match first_form_before_module(kinds@) {
            Some(k) => final(diagnostics)@.len() == old(diagnostics)@.len() + 1
                && final(diagnostics)@.drop_last() == old(diagnostics)@
                && final(diagnostics)@.last().range.start == form_range(toks@, forms@[k]).0
                && final(diagnostics)@.last().range.end == form_range(toks@, forms@[k]).1
                && final(diagnostics)@.last().code@ == DiagnosticCode::MissingModule@
                && final(diagnostics)@.last().severity == Severity::Error
                && final(diagnostics)@.last().message@ == no_module_message()
                && !final(diagnostics)@.last().experimental,
            None => final(diagnostics)@ == old(diagnostics)@,
        },
{
    let mut i: usize = 0;
    assert(kinds@.subrange(0, kinds@.len() as int) =~= kinds@);
    while i < forms.len()
        invariant
            i <= forms@.len(),
            kinds@.len() == forms@.len(),
            t@.len() <= u32::MAX,
            tokens_ok(t@, toks@),
            forms_ok(toks@, forms@),
            diagnostics@ == old(diagnostics)@,
            forall|m: int| 0 <= m < i ==> kinds@[m] == FormKind::Directive,
            first_form_before_module(kinds@) == match first_form_before_module(
                kinds@.subrange(i as int, kinds@.len() as int),
            ) {
                Some(k) => Some(k + i),
                None => None,
            },
        decreases forms@.len() - i,
    {
        let ghost rest = kinds@.subrange(i as int, kinds@.len() as int);
        assert(rest.drop_first() =~= kinds@.subrange(i + 1, kinds@.len() as int));
        assert(rest[0] == kinds@[i as int]);
        match kinds[i] {
            FormKind::Directive => {},
            FormKind::Module => {
                return;
            },
            _ => {
                let f = forms[i];
                assert(forms@[i as int].first <= forms@[i as int].last < toks@.len());
                proof {
                    lemma_token(t@, toks@, f.first as int);
                }
                proof {
                    lemma_token(t@, toks@, f.last as int);
                }
                let start = toks[f.first].start;
                let end = toks[f.last].end;
                let message = String::from_str("no module definition");
                proof {
                    reveal_strlit("no module definition");
                    assert("no module definition"@ =~= no_module_message());
                }
                let d = Diagnostic::new(
                    DiagnosticCode::MissingModule,
                    message,
                    TextRange { start: start as u32, end: end as u32 },
                );
                diagnostics.push(d);
                assert(diagnostics@.drop_last() =~= old(diagnostics)@);
                return;
            },
        }
        i = i + 1;
    }
    assert(kinds@.subrange(i as int, kinds@.len() as int) =~= Seq::<FormKind>::empty());
}

// ---------------------------------------------------------------------
// Missing separators.

/// Two tokens lie in the text and spell the same.
pub open spec fn same_text(t: Seq<char>, a: Token, b: Token) -> bool {
    &&& a.start <= a.end <= t.len()
    &&& b.start <= b.end <= t.len()
    &&& t.subrange(a.start as int, a.end as int) == t.subrange(b.start as int, b.end as int)
}

pub open spec fn is_opening(k: TokenKind) -> bool {
    k == TokenKind::Punct('(') || k == TokenKind::Punct('[') || k == TokenKind::Punct('{')
}

pub open spec fn is_closing(k: TokenKind) -> bool {
    k == TokenKind::Punct(')') || k == TokenKind::Punct(']') || k == TokenKind::Punct('}')
}

/// The bracket nesting after a token.
pub open spec fn bracket_depth(k: TokenKind, depth: nat) -> nat {
    if is_opening(k) {
        depth + 1
    } else if is_closing(k) && depth > 0 {
        (depth - 1) as nat
    } else {
        depth
    }
}

/// The elements of a bracketed list that run into the next one without a
/// comma, scanning from token `k` at nesting `depth`, the current element
/// starting at `item`: `(start, end, true)` for each such element, until
/// the list closes.
pub open spec fn list_gaps(toks: Seq<Token>, k: int, last: int, depth: nat, item: int) -> Seq<
    (int, int, bool),
>
    decreases last + 1 - k,
{
    if k < 1 || k >= toks.len() || k > last {
        Seq::empty()
    } else if depth == 0 && is_closing(toks[k].kind) {
        Seq::empty()
    } else {
        let item1 = if depth == 0 && toks[k].kind == TokenKind::Punct(',') {
            k + 1
        } else {
            item
        };
        let rep = depth == 0 && k > item1 && starts_operand(toks[k].kind) && ends_operand(
            toks[k - 1].kind,
        );
        (if rep {
            seq![(toks[item1].start as int, toks[k - 1].end as int, true)]
        } else {
            Seq::empty()
        }) + list_gaps(
            toks,
            k + 1,
            last,
            bracket_depth(toks[k].kind, depth),
            if rep {
                k
            } else {
                item1
            },
        )
    }
}

/// The list gaps of the list opened at token `open`.
pub open spec fn list_gaps_from(toks: Seq<Token>, open: int, last: int) -> Seq<(int, int, bool)> {
    if open >= last {
        Seq::empty()
    } else {
        list_gaps(toks, open + 1, last, 0, open + 1)
    }
}

/// The clauses of a function declaration that run into the next clause
/// without a semicolon: a new clause starts, at bracket depth 0, where the
/// function's name and `(` follow the end of an operand.
pub open spec fn clause_gaps(
    t: Seq<char>,
    toks: Seq<Token>,
    name: int,
    k: int,
    last: int,
    depth: nat,
    cs: int,
) -> Seq<(int, int, bool)>
    decreases last - k,
{
    if k < 1 || k >= last || last >= toks.len() {
        Seq::empty()
    } else {
        let boundary = depth == 0 && toks[k].kind == TokenKind::Atom && toks[k + 1].kind
            == TokenKind::Punct('(') && same_text(t, toks[k], toks[name]);
        let rep = boundary && ends_operand(toks[k - 1].kind);
        (if rep {
            seq![(toks[cs].start as int, toks[k - 1].end as int, false)]
        } else {
            Seq::empty()
        }) + clause_gaps(
            t,
            toks,
            name,
            k + 1,
            last,
            bracket_depth(toks[k].kind, depth),
            if boundary {
                k
            } else {
                cs
            },
        )
    }
}

/// The missing separators of one form.
pub open spec fn form_gaps(t: Seq<char>, toks: Seq<Token>, f: Form, kind: FormKind) -> Seq<
    (int, int, bool),
> {
    let first = f.first as int;
    let last = f.last as int;
    match kind {
        FormKind::Export | FormKind::ExportType | FormKind::Import => match first_punct(
            toks,
            first,
            last,
            '[',
        ) {
            Some(o) => list_gaps_from(toks, o, last),
            None => Seq::empty(),
        },
        FormKind::TypeAlias => match first_punct(toks, first, last, '(') {
            Some(o) => list_gaps_from(toks, o, last),
            None => Seq::empty(),
        },
        FormKind::Record => match first_punct(toks, first, last, '(') {
            Some(o) => if o < last && last - o >= 2 && toks[o + 1].kind == TokenKind::Atom && toks[o
                + 2].kind != TokenKind::Punct(',') {
                seq![(toks[o + 1].start as int, toks[o + 1].end as int, true)]
            } else {
                Seq::empty()
            },
            None => Seq::empty(),
        },
        FormKind::FunDecl => if first >= last {
            Seq::empty()
        } else {
            clause_gaps(t, toks, first, first + 1, last, 0, first)
        },
        _ => Seq::empty(),
    }
}

/// The missing separators of forms `0..n`.
pub open spec fn missing_seps(t: Seq<char>, toks: Seq<Token>, forms: Seq<Form>, kinds: Seq<FormKind>, n: int) -> Seq<
    (int, int, bool),
>
    decreases n,
{
    if n <= 0 {
        Seq::empty()
    } else {
        missing_seps(t, toks, forms, kinds, n - 1) + form_gaps(t, toks, forms[n - 1], kinds[n - 1])
    }
}

pub open spec fn missing_comma_message() -> Seq<char> {
    seq!['M', 'i', 's', 's', 'i', 'n', 'g', ' ', '\'', ',', '\'']
}

pub open spec fn missing_semi_message() -> Seq<char> {
    seq!['M', 'i', 's', 's', 'i', 'n', 'g', ' ', '\'', ';', '\'']
}

/// `d` reports the gap `g`.
pub open spec fn reports_gap(d: Diagnostic, g: (int, int, bool)) -> bool {
    &&& d.range.start as int == g.0
    &&& d.range.end as int == g.1
    &&& d.code@ == crate::code::CodeView::Missing
    &&& d.severity == Severity::Warning
    &&& !d.experimental
    &&& d.message@ == if g.2 {
        missing_comma_message()
    } else {
        missing_semi_message()
    }
}

/// `out` extends `old` by one diagnostic for each of `gaps`.
pub open spec fn extends_with_gaps(out: Seq<Diagnostic>, old: Seq<Diagnostic>, gaps: Seq<(int, int, bool)>) -> bool {
    &&& out.len() == old.len() + gaps.len()
    &&& forall|j: int| 0 <= j < old.len() ==> #[trigger] out[j] == old[j]
    &&& forall|j: int| 0 <= j < gaps.len() ==> reports_gap(#[trigger] out[old.len() + j], gaps[j])
}

pub open spec fn ends_operand(k: TokenKind) -> bool {
    match k {
        TokenKind::Atom | TokenKind::Var | TokenKind::Number | TokenKind::Str => true,
        TokenKind::Punct(c) => c == ')' || c == ']' || c == '}',
        _ => false,
    }
}

pub open spec fn starts_operand(k: TokenKind) -> bool {
    match k {
        TokenKind::Atom | TokenKind::Var | TokenKind::Number | TokenKind::Str => true,
        TokenKind::Punct(c) => c == '[' || c == '{',
        _ => false,
    }
}

fn ends_operand_kind(k: TokenKind) -> (r: bool)
    ensures
        r == ends_operand(k),
{
    match k {
        TokenKind::Atom | TokenKind::Var | TokenKind::Number | TokenKind::Str => true,
        TokenKind::Punct(c) => c == ')' || c == ']' || c == '}',
        _ => false,
    }
}

fn starts_operand_kind(k: TokenKind) -> (r: bool)
    ensures
        r == starts_operand(k),
{
    match k {
        TokenKind::Atom | TokenKind::Var | TokenKind::Number | TokenKind::Str => true,
        TokenKind::Punct(c) => c == '[' || c == '{',
        _ => false,
    }
}

/// What every form-level diagnostic is: a warning about a missing
/// separator, on a range of the text.
pub open spec fn missing_sep_ok(t: Seq<char>, d: Diagnostic) -> bool {
    &&& d.range.start <= d.range.end <= t.len()
    &&& d.severity == Severity::Warning
    &&& d.code is Missing
}

pub open spec fn all_missing_sep_ok(t: Seq<char>, ds: Seq<Diagnostic>) -> bool {
    forall|k: int| 0 <= k < ds.len() ==> missing_sep_ok(t, #[trigger] ds[k])
}

/// A warning that `item` is missing after `range`.
fn make_missing_diagnostic(range: TextRange, comma: bool) -> (r: Diagnostic)
    ensures
        r.range == range,
        r.severity == Severity::Warning,
        r.code is Missing,
        reports_gap(r, (range.start as int, range.end as int, comma)),
{
    proof {
        reveal_strlit("Missing ','");
        reveal_strlit("Missing ';'");
        assert("Missing ','"@ =~= missing_comma_message());
        assert("Missing ';'"@ =~= missing_semi_message());
    }
    if comma {
        Diagnostic::new(
            DiagnosticCode::Missing,
            String::from_str("Missing ','"),
            range,
        ).severity(Severity::Warning)
    } else {
        Diagnostic::new(
            DiagnosticCode::Missing,
            String::from_str("Missing ';'"),
            range,
        ).severity(Severity::Warning)
    }
}

/// Within the bracketed list that opens at token `open`, reports each
/// element followed by another without a comma between them.
#[verifier::rlimit(60)]
fn check_list(
    out: &mut Vec<Diagnostic>,
    t: &[char],
    toks: &Vec<Token>,
    open: usize,
    last: usize,
)
    requires
        t@.len() <= u32::MAX,
        tokens_ok(t@, toks@),
        open <= last < toks@.len(),
        all_missing_sep_ok(t@, old(out)@),
    ensures
        all_missing_sep_ok(t@, final(out)@),
        extends_with_gaps(final(out)@, old(out)@, list_gaps_from(toks@, open as int, last as int)),
{
    if open >= last {
        return;
    }
    let mut depth: usize = 0;
    let mut item_start: usize = open + 1;
    let mut k: usize = open + 1;
    let ghost mut produced: Seq<(int, int, bool)> = Seq::empty();
    while k < toks.len() && k <= last
        invariant
            t@.len() <= u32::MAX,
            tokens_ok(t@, toks@),
            open < item_start <= k,
            open < k,
            depth <= k,
            last < toks@.len(),
            all_missing_sep_ok(t@, out@),
            extends_with_gaps(out@, old(out)@, produced),
            produced + list_gaps(toks@, k as int, last as int, depth as nat, item_start as int)
                == list_gaps_from(toks@, open as int, last as int),
        decreases last + 1 - k,
    {
        let tok = toks[k];
        let ghost rest = list_gaps(toks@, k as int, last as int, depth as nat, item_start as int);
        let ghost d0 = depth as nat;
        if depth == 0 {
            match tok.kind {
                TokenKind::Punct(c) => {
                    if c == ',' {
                        item_start = k + 1;
                    } else if c == ')' || c == ']' || c == '}' {
                        proof {
                            assert(rest =~= Seq::<(int, int, bool)>::empty());
                            assert(produced + rest =~= produced);
                        }
                        return;
                    }
                },
                _ => {},
            }
        }
        let ghost item1 = item_start as int;
        let rep = depth == 0 && k > item_start && starts_operand_kind(tok.kind) && ends_operand_kind(
            toks[k - 1].kind,
        );
        if rep {
            let first = toks[item_start];
            let prev = toks[k - 1];
            proof {
                lemma_token(t@, toks@, item_start as int);
                lemma_token(t@, toks@, k - 1);
                if item_start < k - 1 {
                    lemma_tokens_ordered(t@, toks@, item_start as int, k - 1);
                }
            }
            let d = make_missing_diagnostic(
                TextRange { start: first.start as u32, end: prev.end as u32 },
                true,
            );
            let ghost before = out@;
            out.push(d);
            proof {
                let g = (first.start as int, prev.end as int, true);
                assert(forall|j: int| 0 <= j < before.len() ==> #[trigger] out@[j] == before[j]);
                assert(out@[before.len() as int] == d);
                assert forall|j: int| 0 <= j < produced.push(g).len() implies reports_gap(
                    #[trigger] out@[old(out)@.len() + j],
                    produced.push(g)[j],
                ) by {
                    if j < produced.len() {
                        assert(out@[old(out)@.len() + j] == before[old(out)@.len() + j]);
                    }
                }
                produced = produced.push(g);
            }
            item_start = k;
        }
        match tok.kind {
            TokenKind::Punct(c) => {
                if c == '(' || c == '[' || c == '{' {
                    depth = depth + 1;
                } else if (c == ')' || c == ']' || c == '}') && depth > 0 {
                    depth = depth - 1;
                }
            },
            _ => {},
        }
        proof {
            assert(depth as nat == bracket_depth(tok.kind, d0));
        }
        k = k + 1;
    }
    proof {
        assert(list_gaps(toks@, k as int, last as int, depth as nat, item_start as int) =~= Seq::<
            (int, int, bool),
        >::empty());
        assert(produced + Seq::<(int, int, bool)>::empty() =~= produced);
    }
}

/// There are no more tokens than characters.
pub(crate) proof fn lemma_tokens_count(t: Seq<char>, toks: Seq<Token>)
    requires
        tokens_ok(t, toks),
    ensures
        toks.len() <= t.len(),
{
    reveal(tokens_ok);
    assert forall|k: int| 0 <= k < toks.len() implies toks[k].start >= k by {
        lemma_token_start_at_least(t, toks, k);
    }
    if toks.len() > 0 {
        assert(toks[toks.len() - 1].start >= toks.len() - 1);
    }
}

proof fn lemma_token_start_at_least(t: Seq<char>, toks: Seq<Token>, k: int)
    requires
        tokens_ok(t, toks),
        0 <= k < toks.len(),
    ensures
        toks[k].start >= k,
    decreases k,
{
    reveal(tokens_ok);
    if k > 0 {
        lemma_token_start_at_least(t, toks, k - 1);
    }
}

pub(crate) proof fn lemma_token(t: Seq<char>, toks: Seq<Token>, k: int)
    requires
        tokens_ok(t, toks),
        0 <= k < toks.len(),
    ensures
        toks[k].start < toks[k].end <= t.len(),
{
    reveal(tokens_ok);
}

pub(crate) proof fn lemma_tokens_ordered(t: Seq<char>, toks: Seq<Token>, a: int, b: int)
    requires
        tokens_ok(t, toks),
        0 <= a < b < toks.len(),
    ensures
        toks[a].end <= toks[b].start,
    decreases b - a,
{
    reveal(tokens_ok);
    if b == a + 1 {
        assert(toks[b - 1].end <= toks[b].start);
    } else {
        lemma_tokens_ordered(t, toks, a, b - 1);
        assert(toks[b - 1].start < toks[b - 1].end);
        assert(toks[b - 1].end <= toks[b].start);
    }
}

/// The index of the first token in `from..=last` that is the punctuation `c`.
/// The first token among `from..=last` that is the punctuation `c`.
pub open spec fn first_punct(toks: Seq<Token>, from: int, last: int, c: char) -> Option<int>
    decreases last + 1 - from,
{
    if from > last || from < 0 || from >= toks.len() {
        None
    } else if toks[from].kind == TokenKind::Punct(c) {
        Some(from)
    } else {
        first_punct(toks, from + 1, last, c)
    }
}

pub(crate) fn find_punct(toks: &Vec<Token>, from: usize, last: usize, c: char) -> (r: Option<usize>)
    requires
        last < toks@.len(),
    ensures
        match r {
            Some(k) => from <= k <= last && toks@[k as int].kind == TokenKind::Punct(c),
            None => true,
        },
        match r {
            Some(k) => first_punct(toks@, from as int, last as int, c) == Some(k as int),
            None => first_punct(toks@, from as int, last as int, c) is None,
        },
{
    let mut k = from;
    while k < toks.len() && k <= last
        invariant
            last < toks@.len(),
            from <= k,
            first_punct(toks@, k as int, last as int, c) == first_punct(toks@, from as int, last as int, c),
        decreases last + 1 - k,
    {
        if toks[k].kind == TokenKind::Punct(c) {
            return Some(k);
        }
        k = k + 1;
    }
    None
}

/// Reports clauses of a function declaration that run into the next one
/// without a semicolon.
#[verifier::rlimit(60)]
fn check_clauses(out: &mut Vec<Diagnostic>, t: &[char], toks: &Vec<Token>, f: Form)
    requires
        t@.len() <= u32::MAX,
        tokens_ok(t@, toks@),
        f.first <= f.last < toks@.len(),
        all_missing_sep_ok(t@, old(out)@),
    ensures
        all_missing_sep_ok(t@, final(out)@),
        extends_with_gaps(final(out)@, old(out)@, form_gaps(t@, toks@, f, FormKind::FunDecl)),
{
    if f.first >= f.last {
        return;
    }
    let name = toks[f.first];
    let mut depth: usize = 0;
    let mut clause_start: usize = f.first;
    let mut k: usize = f.first + 1;
    let ghost mut produced: Seq<(int, int, bool)> = Seq::empty();
    while k < f.last
        invariant
            t@.len() <= u32::MAX,
            tokens_ok(t@, toks@),
            f.first <= clause_start < k,
            f.first < k <= f.last,
            depth <= k,
            f.last < toks@.len(),
            name == toks@[f.first as int],
            all_missing_sep_ok(t@, out@),
            extends_with_gaps(out@, old(out)@, produced),
            produced + clause_gaps(
                t@,
                toks@,
                f.first as int,
                k as int,
                f.last as int,
                depth as nat,
                clause_start as int,
            ) == form_gaps(t@, toks@, f, FormKind::FunDecl),
        decreases f.last - k,
    {
        let tok = toks[k];
        let ghost d0 = depth as nat;
        let boundary = depth == 0 && tok.kind == TokenKind::Atom && toks[k + 1].kind
            == TokenKind::Punct('(') && same_token_text(t, tok, name);
        if boundary {
            let prev = toks[k - 1];
            if ends_operand_kind(prev.kind) {
                let first = toks[clause_start];
                proof {
                    lemma_token(t@, toks@, clause_start as int);
                    lemma_token(t@, toks@, k - 1);
                    if clause_start < k - 1 {
                        lemma_tokens_ordered(t@, toks@, clause_start as int, k - 1);
                    }
                }
                let d = make_missing_diagnostic(
                    TextRange { start: first.start as u32, end: prev.end as u32 },
                    false,
                );
                let ghost before = out@;
                out.push(d);
                proof {
                    let g = (first.start as int, prev.end as int, false);
                    assert(forall|j: int| 0 <= j < before.len() ==> #[trigger] out@[j] == before[j]);
                    assert(out@[before.len() as int] == d);
                    assert forall|j: int| 0 <= j < produced.push(g).len() implies reports_gap(
                        #[trigger] out@[old(out)@.len() + j],
                        produced.push(g)[j],
                    ) by {
                        if j < produced.len() {
                            assert(out@[old(out)@.len() + j] == before[old(out)@.len() + j]);
                        }
                    }
                    produced = produced.push(g);
                }
            }
            clause_start = k;
        }
        match tok.kind {
            TokenKind::Punct(c) => {
                if c == '(' || c == '[' || c == '{' {
                    depth = depth + 1;
                } else if (c == ')' || c == ']' || c == '}') && depth > 0 {
                    depth = depth - 1;
                }
            },
            _ => {},
        }
        proof {
            assert(depth as nat == bracket_depth(tok.kind, d0));
        }
        k = k + 1;
    }
    proof {
        assert(clause_gaps(
            t@,
            toks@,
            f.first as int,
            k as int,
            f.last as int,
            depth as nat,
            clause_start as int,
        ) =~= Seq::<(int, int, bool)>::empty());
        assert(produced + Seq::<(int, int, bool)>::empty() =~= produced);
    }
}

/// Missing separators between the elements of export and import lists,
/// function clauses and type parameters, and after a record name.
proof fn lemma_extends_compose(
    a: Seq<Diagnostic>,
    b: Seq<Diagnostic>,
    c: Seq<Diagnostic>,
    g1: Seq<(int, int, bool)>,
    g2: Seq<(int, int, bool)>,
)
    requires
        extends_with_gaps(b, a, g1),
        extends_with_gaps(c, b, g2),
    ensures
        extends_with_gaps(c, a, g1 + g2),
{
    assert forall|j: int| 0 <= j < (g1 + g2).len() implies reports_gap(
        #[trigger] c[a.len() + j],
        (g1 + g2)[j],
    ) by {
        if j < g1.len() {
            assert(c[a.len() + j] == b[a.len() + j]);
        } else {
            assert(c[b.len() + (j - g1.len())] == c[a.len() + j]);
        }
    }
    assert forall|j: int| 0 <= j < a.len() implies #[trigger] c[j] == a[j] by {
        assert(c[j] == b[j]);
    }
}

/// Missing separators between the elements of export and import lists,
/// function clauses and type parameters, and after a record name: one
/// warning for each gap that `missing_seps` names, in form order.
#[verifier::rlimit(60)]
pub fn form_missing_separator_diagnostics(
    t: &[char],
    toks: &Vec<Token>,
    forms: &Vec<Form>,
    kinds: &Vec<FormKind>,
) -> (r: Vec<Diagnostic>)
    requires
        t@.len() <= u32::MAX,
        tokens_ok(t@, toks@),
        forms_ok(toks@, forms@),
        kinds@.len() == forms@.len(),
    ensures
        all_missing_sep_ok(t@, r@),
        extends_with_gaps(
            r@,
            Seq::empty(),
            missing_seps(t@, toks@, forms@, kinds@, forms@.len() as int),
        ),
{
    let mut out: Vec<Diagnostic> = Vec::new();
    let mut i: usize = 0;
    while i < forms.len()
        invariant
            t@.len() <= u32::MAX,
            tokens_ok(t@, toks@),
            forms_ok(toks@, forms@),
            kinds@.len() == forms@.len(),
            i <= forms@.len(),
            all_missing_sep_ok(t@, out@),
            extends_with_gaps(out@, Seq::empty(), missing_seps(t@, toks@, forms@, kinds@, i as int)),
        decreases forms@.len() - i,
    {
        let f = forms[i];
        assert(forms@[i as int].first <= forms@[i as int].last < toks@.len());
        let ghost before = out@;
        let ghost g = form_gaps(t@, toks@, f, kinds@[i as int]);
        match kinds[i] {
            FormKind::Export | FormKind::ExportType | FormKind::Import => {
                if let Some(open) = find_punct(toks, f.first, f.last, '[') {
                    check_list(&mut out, t, toks, open, f.last);
                }
            },
            FormKind::TypeAlias => {
                if let Some(open) = find_punct(toks, f.first, f.last, '(') {
                    check_list(&mut out, t, toks, open, f.last);
                }
            },
            FormKind::Record => {
                if let Some(open) = find_punct(toks, f.first, f.last, '(') {
                    if open < f.last && f.last - open >= 2 && toks[open + 1].kind == TokenKind::Atom
                        && toks[open + 2].kind != TokenKind::Punct(',') {
                        let name = toks[open + 1];
                        proof {
                            lemma_token(t@, toks@, open + 1);
                        }
                        let d = make_missing_diagnostic(
                            TextRange { start: name.start as u32, end: name.end as u32 },
                            true,
                        );
                        out.push(d);
                        proof {
                            assert(out@[before.len() as int] == d);
                            assert(forall|j: int| 0 <= j < before.len() ==> #[trigger] out@[j] == before[j]);
                        }
                    }
                }
            },
            FormKind::FunDecl => {
                check_clauses(&mut out, t, toks, f);
            },
            _ => {},
        }
        proof {
            if out@ == before {
                assert(extends_with_gaps(out@, before, Seq::empty()));
            }
            assert(extends_with_gaps(out@, before, g));
            lemma_extends_compose(
                Seq::empty(),
                before,
                out@,
                missing_seps(t@, toks@, forms@, kinds@, i as int),
                g,
            );
        }
        i = i + 1;
    }
    out
}

// ---------------------------------------------------------------------
// Unused record fields.

/// A record field as declared: the tokens of the record's name and of the
/// field's name.
#[derive(Clone, Copy, Debug, PartialEq, Eq, Structural)]
pub struct FieldRef {
    pub record: usize,
    pub field: usize,
}

pub open spec fn refs_ok(toks: Seq<Token>, refs: Seq<FieldRef>) -> bool {
    forall|k: int|
        0 <= k < refs.len() ==> (#[trigger] refs[k]).record < toks.len() && refs[k].field
            < toks.len()
}

/// The field names that start an element of the braces scanned from token
/// `k` at nesting `depth` (`at_start` after `{` or a comma), each with
/// record name token `record`, until the braces close.
pub open spec fn brace_fields(
    toks: Seq<Token>,
    record: int,
    k: int,
    last: int,
    depth: nat,
    at_start: bool,
) -> Seq<FieldRef>
    decreases last + 1 - k,
{
    if k < 0 || k >= toks.len() || k > last {
        Seq::empty()
    } else {
        let kind = toks[k].kind;
        let here = if depth == 0 && at_start && kind == TokenKind::Atom {
            seq![FieldRef { record: record as usize, field: k as usize }]
        } else {
            Seq::empty()
        };
        if is_closing(kind) && depth == 0 {
            here
        } else {
            here + brace_fields(
                toks,
                record,
                k + 1,
                last,
                bracket_depth(kind, depth),
                kind == TokenKind::Punct(',') && depth == 0,
            )
        }
    }
}

pub open spec fn brace_fields_from(toks: Seq<Token>, record: int, open: int, last: int) -> Seq<
    FieldRef,
> {
    if open >= last {
        Seq::empty()
    } else {
        brace_fields(toks, record, open + 1, last, 0, true)
    }
}

/// Pushes the field names that start an element of the braces opened at
/// token `open` (up to `last`), each with record name token `record`.
fn push_brace_fields(
    out: &mut Vec<FieldRef>,
    toks: &Vec<Token>,
    record: usize,
    open: usize,
    last: usize,
)
    requires
        record < toks@.len(),
        last < toks@.len(),
        refs_ok(toks@, old(out)@),
    ensures
        refs_ok(toks@, final(out)@),
        final(out)@ == old(out)@ + brace_fields_from(toks@, record as int, open as int, last as int),
{
    if open >= last {
        assert(old(out)@ + Seq::<FieldRef>::empty() =~= old(out)@);
        return;
    }
    let mut depth: usize = 0;
    let mut at_start = true;
    let mut k: usize = open + 1;
    while k < toks.len() && k <= last
        invariant
            record < toks@.len(),
            last < toks@.len(),
            open < k,
            depth <= k,
            refs_ok(toks@, out@),
            out@ + brace_fields(toks@, record as int, k as int, last as int, depth as nat, at_start)
                == old(out)@ + brace_fields_from(toks@, record as int, open as int, last as int),
        decreases toks@.len() - k,
    {
        let kind = toks[k].kind;
        let ghost before = out@;
        let ghost d0 = depth as nat;
        let ghost a0 = at_start;
        if depth == 0 && at_start && kind == TokenKind::Atom {
            out.push(FieldRef { record, field: k });
        }
        at_start = false;
        match kind {
            TokenKind::Punct(c) => {
                if c == '(' || c == '[' || c == '{' {
                    depth = depth + 1;
                } else if c == ')' || c == ']' || c == '}' {
                    if depth == 0 {
                        proof {
                            assert(out@ + Seq::<FieldRef>::empty() =~= out@);
                            assert(before + brace_fields(toks@, record as int, k as int, last as int, d0, a0)
                                =~= out@);
                        }
                        return;
                    }
                    depth = depth - 1;
                } else if c == ',' && depth == 0 {
                    at_start = true;
                }
            },
            _ => {},
        }
        proof {
            assert(depth as nat == bracket_depth(kind, d0));
            assert(at_start == (kind == TokenKind::Punct(',') && d0 == 0));
            let here = if d0 == 0 && a0 && kind == TokenKind::Atom {
                seq![FieldRef { record: record as usize, field: k as usize }]
            } else {
                Seq::empty()
            };
            assert(out@ =~= before + here);
            assert(out@ + brace_fields(toks@, record as int, k + 1, last as int, depth as nat, at_start)
                =~= before + brace_fields(toks@, record as int, k as int, last as int, d0, a0));
        }
        k = k + 1;
    }
    proof {
        assert(brace_fields(toks@, record as int, k as int, last as int, depth as nat, at_start)
            =~= Seq::<FieldRef>::empty());
        assert(out@ + Seq::<FieldRef>::empty() =~= out@);
    }
}

/// The fields a form declares, when it is a record declaration.
pub open spec fn record_fields(toks: Seq<Token>, f: Form, kind: FormKind) -> Seq<FieldRef> {
    if kind == FormKind::Record {
        match first_punct(toks, f.first as int, f.last as int, '(') {
            Some(o) => if o < f.last && toks[o + 1].kind == TokenKind::Atom {
                match first_punct(toks, o + 1, f.last as int, '{') {
                    Some(b) => brace_fields_from(toks, o + 1, b, f.last as int),
                    None => Seq::empty(),
                }
            } else {
                Seq::empty()
            },
            None => Seq::empty(),
        }
    } else {
        Seq::empty()
    }
}

/// The fields declared by forms `0..n`.
pub open spec fn declared_of(toks: Seq<Token>, forms: Seq<Form>, kinds: Seq<FormKind>, n: int) -> Seq<
    FieldRef,
>
    decreases n,
{
    if n <= 0 {
        Seq::empty()
    } else {
        declared_of(toks, forms, kinds, n - 1) + record_fields(toks, forms[n - 1], kinds[n - 1])
    }
}

/// The fields declared by the record declarations among `forms`.
fn declared_fields(toks: &Vec<Token>, forms: &Vec<Form>, kinds: &Vec<FormKind>) -> (r: Vec<FieldRef>)
    requires
        forms_ok(toks@, forms@),
        kinds@.len() == forms@.len(),
    ensures
        refs_ok(toks@, r@),
        r@ == declared_of(toks@, forms@, kinds@, forms@.len() as int),
{
    let mut out: Vec<FieldRef> = Vec::new();
    let mut i: usize = 0;
    while i < forms.len()
        invariant
            forms_ok(toks@, forms@),
            kinds@.len() == forms@.len(),
            i <= forms@.len(),
            refs_ok(toks@, out@),
            out@ == declared_of(toks@, forms@, kinds@, i as int),
        decreases forms@.len() - i,
    {
        let f = forms[i];
        assert(forms@[i as int].first <= forms@[i as int].last < toks@.len());
        let ghost before = out@;
        if kinds[i] == FormKind::Record {
            if let Some(open) = find_punct(toks, f.first, f.last, '(') {
                if open < f.last && toks[open + 1].kind == TokenKind::Atom {
                    if let Some(brace) = find_punct(toks, open + 1, f.last, '{') {
                        push_brace_fields(&mut out, toks, open + 1, brace, f.last);
                    }
                }
            }
        }
        proof {
            if out@ == before {
                assert(out@ =~= before + Seq::<FieldRef>::empty());
            }
            assert(out@ == before + record_fields(toks@, f, kinds@[i as int]));
        }
        i = i + 1;
    }
    out
}

/// The fields that the uses at token `k` name: `#rec.field`, or each
/// field named in `#rec{...}`.
pub open spec fn uses_at(toks: Seq<Token>, k: int) -> Seq<FieldRef> {
    let n = toks.len();
    if n >= 3 && 0 <= k < n - 2 && toks[k].kind == TokenKind::Punct('#') && toks[k + 1].kind
        == TokenKind::Atom {
        if toks[k + 2].kind == TokenKind::Punct('.') {
            if k + 3 < n && toks[k + 3].kind == TokenKind::Atom {
                seq![FieldRef { record: (k + 1) as usize, field: (k + 3) as usize }]
            } else {
                Seq::empty()
            }
        } else if toks[k + 2].kind == TokenKind::Punct('{') {
            brace_fields_from(toks, k + 1, k + 2, n - 1)
        } else {
            Seq::empty()
        }
    } else {
        Seq::empty()
    }
}

/// The record fields used from token `k` on.
pub open spec fn used_from(toks: Seq<Token>, k: int) -> Seq<FieldRef>
    decreases toks.len() - k,
{
    if k < 0 || k >= toks.len() {
        Seq::empty()
    } else {
        uses_at(toks, k) + used_from(toks, k + 1)
    }
}

/// The record fields that the text uses: `#rec.field`, and the fields
/// named in `#rec{...}`.
fn used_fields(toks: &Vec<Token>) -> (r: Vec<FieldRef>)
    ensures
        refs_ok(toks@, r@),
        r@ == used_from(toks@, 0),
{
    let mut out: Vec<FieldRef> = Vec::new();
    let n = toks.len();
    let mut k: usize = 0;
    while k < n
        invariant
            n == toks@.len(),
            k <= n,
            refs_ok(toks@, out@),
            out@ + used_from(toks@, k as int) == used_from(toks@, 0),
        decreases n - k,
    {
        let ghost before = out@;
        if n >= 3 && k < n - 2 && toks[k].kind == TokenKind::Punct('#') && toks[k + 1].kind == TokenKind::Atom {
            if toks[k + 2].kind == TokenKind::Punct('.') {
                if k + 3 < n && toks[k + 3].kind == TokenKind::Atom {
                    out.push(FieldRef { record: k + 1, field: k + 3 });
                }
            } else if toks[k + 2].kind == TokenKind::Punct('{') {
                push_brace_fields(&mut out, toks, k + 1, k + 2, n - 1);
            }
        }
        proof {
            if out@ == before {
                assert(out@ =~= before + Seq::<FieldRef>::empty());
            }
            assert(out@ == before + uses_at(toks@, k as int));
            assert(out@ + used_from(toks@, k + 1) =~= before + used_from(toks@, k as int));
        }
        k = k + 1;
    }
    assert(out@ + Seq::<FieldRef>::empty() =~= out@);
    out
}

/// Whether two tokens spell the same text.
pub(crate) fn same_token_text(t: &[char], a: Token, b: Token) -> (r: bool)
    ensures
        r == same_text(t@, a, b),
        r ==> a.start <= a.end <= t@.len() && b.start <= b.end <= t@.len()
            && t@.subrange(a.start as int, a.end as int) == t@.subrange(b.start as int, b.end as int),
{
    if !(a.start <= a.end && a.end <= t.len() && b.start <= b.end && b.end <= t.len()) {
        return false;
    }
    if a.end - a.start != b.end - b.start {
        assert(t@.subrange(a.start as int, a.end as int).len() != t@.subrange(
            b.start as int,
            b.end as int,
        ).len());
        return false;
    }
    let mut k: usize = 0;
    while k < a.end - a.start
        invariant
            a.start <= a.end <= t@.len(),
            b.start <= b.end <= t@.len(),
            a.end - a.start == b.end - b.start,
            k <= a.end - a.start,
            forall|m: int| 0 <= m < k ==> #[trigger] t@[a.start + m] == t@[b.start + m],
        decreases a.end - a.start - k,
    {
        if t[a.start + k] != t[b.start + k] {
            assert(t@.subrange(a.start as int, a.end as int)[k as int] != t@.subrange(
                b.start as int,
                b.end as int,
            )[k as int]);
            return false;
        }
        k = k + 1;
    }
    assert forall|m: int| 0 <= m < a.end - a.start implies t@.subrange(a.start as int, a.end as int)[m]
        == t@.subrange(b.start as int, b.end as int)[m] by {
        assert(t@[a.start + m] == t@[b.start + m]);
    }
    assert(t@.subrange(a.start as int, a.end as int) =~= t@.subrange(b.start as int, b.end as int));
    true
}

pub open spec fn unused_field_ok(t: Seq<char>, d: Diagnostic) -> bool {
    &&& d.range.start < d.range.end <= t.len()
    &&& d.severity == Severity::Warning
    &&& d.code is UnusedRecordField
}

/// Some use names the same record and field as `d`.
pub open spec fn is_used(t: Seq<char>, toks: Seq<Token>, used: Seq<FieldRef>, d: FieldRef) -> bool {
    exists|j: int|
        0 <= j < used.len() && same_text(t, toks[used[j].record as int], toks[d.record as int])
            && same_text(t, toks[used[j].field as int], toks[d.field as int])
}

pub open spec fn unused_pred(t: Seq<char>, toks: Seq<Token>, used: Seq<FieldRef>) -> spec_fn(
    FieldRef,
) -> bool {
    |d: FieldRef| !is_used(t, toks, used, d)
}

/// The declared fields that nothing uses, in declaration order.
pub open spec fn unused_fields(t: Seq<char>, toks: Seq<Token>, forms: Seq<Form>, kinds: Seq<FormKind>) -> Seq<
    FieldRef,
> {
    declared_of(toks, forms, kinds, forms.len() as int).filter(
        unused_pred(t, toks, used_from(toks, 0)),
    )
}

pub open spec fn unused_prefix() -> Seq<char> {
    seq!['U', 'n', 'u', 's', 'e', 'd', ' ', 'r', 'e', 'c', 'o', 'r', 'd', ' ', 'f', 'i', 'e', 'l', 'd', ' ', '(']
}

/// `Unused record field (R.F)`.
pub open spec fn unused_message(t: Seq<char>, toks: Seq<Token>, d: FieldRef) -> Seq<char> {
    let rec = toks[d.record as int];
    let field = toks[d.field as int];
    unused_prefix() + t.subrange(rec.start as int, rec.end as int) + seq!['.'] + t.subrange(
        field.start as int,
        field.end as int,
    ) + seq![')']
}

/// `diag` warns that field `d` is unused, on the field's name.
pub open spec fn reports_unused(t: Seq<char>, toks: Seq<Token>, diag: Diagnostic, d: FieldRef) -> bool {
    &&& diag.range == token_range(toks[d.field as int])
    &&& diag.code@ == crate::code::CodeView::UnusedRecordField
    &&& diag.severity == Severity::Warning
    &&& !diag.experimental
    &&& diag.message@ == unused_message(t, toks, d)
}

fn extend_chars(v: &mut Vec<char>, s: &[char])
    ensures
        final(v)@ == old(v)@ + s@,
{
    let mut i: usize = 0;
    while i < s.len()
        invariant
            i <= s@.len(),
            v@ == old(v)@ + s@.subrange(0, i as int),
        decreases s@.len() - i,
    {
        v.push(s[i]);
        assert(v@ =~= old(v)@ + s@.subrange(0, i + 1));
        i = i + 1;
    }
    assert(s@.subrange(0, s@.len() as int) =~= s@);
}

/// Warns of each field of a record declared in the file that nothing in
/// the file uses: one warning per such field, in declaration order, on the
/// field's name, reading `Unused record field (R.F)`.
#[verifier::rlimit(60)]
pub fn unused_record_field(
    t: &[char],
    toks: &Vec<Token>,
    forms: &Vec<Form>,
    kinds: &Vec<FormKind>,
) -> (r: Vec<Diagnostic>)
    requires
        t@.len() <= u32::MAX,
        tokens_ok(t@, toks@),
        forms_ok(toks@, forms@),
        kinds@.len() == forms@.len(),
    ensures
        forall|k: int| 0 <= k < r@.len() ==> unused_field_ok(t@, #[trigger] r@[k]),
        r@.len() == unused_fields(t@, toks@, forms@, kinds@).len(),
        forall|k: int|
            0 <= k < r@.len() ==> reports_unused(
                t@,
                toks@,
                #[trigger] r@[k],
                unused_fields(t@, toks@, forms@, kinds@)[k],
            ),
{
    let declared = declared_fields(toks, forms, kinds);
    let used = used_fields(toks);
    let ghost pred = unused_pred(t@, toks@, used@);
    let mut out: Vec<Diagnostic> = Vec::new();
    let mut i: usize = 0;
    assert(declared@.subrange(0, 0).filter(pred) =~= Seq::<FieldRef>::empty());
    while i < declared.len()
        invariant
            t@.len() <= u32::MAX,
            tokens_ok(t@, toks@),
            refs_ok(toks@, declared@),
            refs_ok(toks@, used@),
            i <= declared@.len(),
            declared@ == declared_of(toks@, forms@, kinds@, forms@.len() as int),
            used@ == used_from(toks@, 0),
            pred == unused_pred(t@, toks@, used@),
            forall|k: int| 0 <= k < out@.len() ==> unused_field_ok(t@, #[trigger] out@[k]),
            out@.len() == declared@.subrange(0, i as int).filter(pred).len(),
            forall|k: int|
                0 <= k < out@.len() ==> reports_unused(
                    t@,
                    toks@,
                    #[trigger] out@[k],
                    declared@.subrange(0, i as int).filter(pred)[k],
                ),
        decreases declared@.len() - i,
    {
        let d = declared[i];
        assert(declared@[i as int].record < toks@.len() && declared@[i as int].field < toks@.len());
        let mut found = false;
        let mut j: usize = 0;
        while j < used.len() && !found
            invariant
                refs_ok(toks@, used@),
                d.record < toks@.len() && d.field < toks@.len(),
                j <= used@.len(),
                found ==> is_used(t@, toks@, used@, d),
                !found ==> forall|m: int|
                    0 <= m < j ==> !(same_text(t@, toks@[used@[m].record as int], toks@[d.record as int])
                        && same_text(t@, toks@[used@[m].field as int], toks@[d.field as int])),
            decreases used@.len() - j,
        {
            let u = used[j];
            assert(used@[j as int].record < toks@.len() && used@[j as int].field < toks@.len());
            if same_token_text(t, toks[u.record], toks[d.record]) && same_token_text(
                t,
                toks[u.field],
                toks[d.field],
            ) {
                found = true;
            }
            j = j + 1;
        }
        let ghost prefix = declared@.subrange(0, i as int);
        proof {
            assert(declared@.subrange(0, i + 1) =~= prefix.push(d));
            prefix.lemma_filter_push(d, pred);
            assert(pred(d) == !found);
        }
        if !found {
            let rec = toks[d.record];
            let field = toks[d.field];
            proof {
                lemma_token(t@, toks@, d.record as int);
                lemma_token(t@, toks@, d.field as int);
            }
            let mut msg: Vec<char> = Vec::new();
            let prefix_chars = ['U', 'n', 'u', 's', 'e', 'd', ' ', 'r', 'e', 'c', 'o', 'r', 'd', ' ', 'f', 'i', 'e', 'l', 'd', ' ', '('];
            assert(prefix_chars@ =~= unused_prefix());
            extend_chars(&mut msg, &prefix_chars);
            let rec_chars = sub_chars(t, rec.start, rec.end);
            extend_chars(&mut msg, rec_chars.as_slice());
            msg.push('.');
            let field_chars = sub_chars(t, field.start, field.end);
            extend_chars(&mut msg, field_chars.as_slice());
            msg.push(')');
            assert(msg@ =~= unused_message(t@, toks@, d));
            let diag = Diagnostic::warning(
                DiagnosticCode::UnusedRecordField,
                TextRange { start: field.start as u32, end: field.end as u32 },
                string_of(msg.as_slice()),
            );
            let ghost before = out@;
            out.push(diag);
            proof {
                assert forall|k: int| 0 <= k < out@.len() implies reports_unused(
                    t@,
                    toks@,
                    #[trigger] out@[k],
                    declared@.subrange(0, i + 1).filter(pred)[k],
                ) by {
                    if k < before.len() {
                        assert(out@[k] == before[k]);
                    }
                }
            }
        }
        i = i + 1;
    }
    assert(declared@.subrange(0, i as int) =~= declared@);
    out
}

// ---------------------------------------------------------------------
// Redundant assignments.

/// A token spells `w`.
pub open spec fn word_is(t: Seq<char>, tok: Token, w: Seq<char>) -> bool {
    token_text(t, tok) == Some(w)
}

/// How token `k` changes the nesting depth of a function body: +1 for an
/// opening bracket, a block keyword or `fun(`, -1 for a closing bracket or
/// `end`, else 0.
pub open spec fn depth_delta(t: Seq<char>, toks: Seq<Token>, k: int) -> int {
    let tok = toks[k];
    if is_opening(tok.kind) {
        1
    } else if is_closing(tok.kind) {
        -1
    } else if tok.kind == TokenKind::Atom {
        if word_is(t, tok, seq!['e', 'n', 'd']) {
            -1
        } else if word_is(t, tok, seq!['c', 'a', 's', 'e']) || word_is(t, tok, seq!['i', 'f'])
            || word_is(t, tok, seq!['r', 'e', 'c', 'e', 'i', 'v', 'e']) || word_is(
            t,
            tok,
            seq!['t', 'r', 'y'],
        ) || word_is(t, tok, seq!['b', 'e', 'g', 'i', 'n']) || word_is(
            t,
            tok,
            seq!['m', 'a', 'y', 'b', 'e'],
        ) {
            1
        } else if word_is(t, tok, seq!['f', 'u', 'n']) && k + 1 < toks.len() && toks[k + 1].kind
            == TokenKind::Punct('(') {
            1
        } else {
            0
        }
    } else {
        0
    }
}

fn depth_change(t: &[char], toks: &Vec<Token>, k: usize) -> (r: i8)
    requires
        k < toks@.len(),
    ensures
        r as int == depth_delta(t@, toks@, k as int),
{
    let tok = toks[k];
    match tok.kind {
        TokenKind::Punct(c) => {
            if c == '(' || c == '[' || c == '{' {
                1
            } else if c == ')' || c == ']' || c == '}' {
                -1
            } else {
                0
            }
        },
        TokenKind::Atom => {
            let w_end = ['e', 'n', 'd'];
            let w_case = ['c', 'a', 's', 'e'];
            let w_if = ['i', 'f'];
            let w_receive = ['r', 'e', 'c', 'e', 'i', 'v', 'e'];
            let w_try = ['t', 'r', 'y'];
            let w_begin = ['b', 'e', 'g', 'i', 'n'];
            let w_maybe = ['m', 'a', 'y', 'b', 'e'];
            let w_fun = ['f', 'u', 'n'];
            assert(w_end@ =~= seq!['e', 'n', 'd']);
            assert(w_case@ =~= seq!['c', 'a', 's', 'e']);
            assert(w_if@ =~= seq!['i', 'f']);
            assert(w_receive@ =~= seq!['r', 'e', 'c', 'e', 'i', 'v', 'e']);
            assert(w_try@ =~= seq!['t', 'r', 'y']);
            assert(w_begin@ =~= seq!['b', 'e', 'g', 'i', 'n']);
            assert(w_maybe@ =~= seq!['m', 'a', 'y', 'b', 'e']);
            assert(w_fun@ =~= seq!['f', 'u', 'n']);
            if token_is(t, tok, &w_end) {
                -1
            } else if token_is(t, tok, &w_case) || token_is(t, tok, &w_if) || token_is(
                t,
                tok,
                &w_receive,
            ) || token_is(t, tok, &w_try) || token_is(t, tok, &w_begin) || token_is(
                t,
                tok,
                &w_maybe,
            ) {
                1
            } else if token_is(t, tok, &w_fun) && k < toks.len() - 1 && toks[k + 1].kind
                == TokenKind::Punct('(') {
                1
            } else {
                0
            }
        },
        _ => 0,
    }
}

/// The clauses `(first, last)` of the tokens `k..=last` of a function
/// declaration: separated by `;` at nesting depth 0.
pub open spec fn clause_ranges(t: Seq<char>, toks: Seq<Token>, k: int, last: int, depth: int, cs: int) -> Seq<
    (int, int),
>
    decreases last + 1 - k,
{
    if k < 0 || k >= toks.len() || k > last {
        Seq::empty()
    } else {
        let is_sep = depth == 0 && (toks[k].kind == TokenKind::Punct(';') || k == last);
        (if is_sep {
            seq![(cs, k)]
        } else {
            Seq::empty()
        }) + clause_ranges(
            t,
            toks,
            k + 1,
            last,
            depth + depth_delta(t, toks, k),
            if is_sep && k < last {
                k + 1
            } else {
                cs
            },
        )
    }
}

pub open spec fn fun_clauses(t: Seq<char>, toks: Seq<Token>, f: Form) -> Seq<(int, int)> {
    clause_ranges(t, toks, f.first as int, f.last as int, 0, f.first as int)
}

/// The clauses of a function declaration.
fn clauses_of(t: &[char], toks: &Vec<Token>, f: Form) -> (r: Vec<(usize, usize)>)
    requires
        t@.len() <= u32::MAX,
        tokens_ok(t@, toks@),
        f.first <= f.last < toks@.len(),
    ensures
        r@.len() == fun_clauses(t@, toks@, f).len(),
        forall|j: int|
            0 <= j < r@.len() ==> (#[trigger] r@[j]).0 as int == fun_clauses(t@, toks@, f)[j].0
                && r@[j].1 as int == fun_clauses(t@, toks@, f)[j].1 && f.first <= r@[j].0 <= r@[j].1
                <= f.last,
{
    proof {
        lemma_tokens_count(t@, toks@);
    }
    let mut out: Vec<(usize, usize)> = Vec::new();
    let ghost mut done: Seq<(int, int)> = Seq::empty();
    let mut depth: i64 = 0;
    let mut cs: usize = f.first;
    let mut k: usize = f.first;
    while k <= f.last && k < toks.len()
        invariant
            f.first <= cs <= k,
            f.last < toks@.len(),
            cs <= f.last,
            k <= f.last + 1,
            toks@.len() <= u32::MAX,
            -(k as int) <= depth <= k as int,
            out@.len() == done.len(),
            forall|j: int|
                0 <= j < out@.len() ==> (#[trigger] out@[j]).0 as int == done[j].0 && out@[j].1 as int
                    == done[j].1 && f.first <= out@[j].0 <= out@[j].1 <= f.last,
            done + clause_ranges(t@, toks@, k as int, f.last as int, depth as int, cs as int)
                == fun_clauses(t@, toks@, f),
        decreases f.last + 1 - k,
    {
        let is_sep = depth == 0 && (toks[k].kind == TokenKind::Punct(';') || k == f.last);
        let ghost d0 = depth as int;
        let ghost c0 = cs as int;
        if is_sep {
            out.push((cs, k));
            proof {
                done = done.push((c0, k as int));
            }
            if k < f.last {
                cs = k + 1;
            }
        }
        let dc = depth_change(t, toks, k);
        depth = depth + dc as i64;
        proof {
            let here: Seq<(int, int)> = if is_sep {
                seq![(c0, k as int)]
            } else {
                Seq::empty()
            };
            assert(clause_ranges(t@, toks@, k as int, f.last as int, d0, c0) == here + clause_ranges(
                t@,
                toks@,
                k + 1,
                f.last as int,
                depth as int,
                cs as int,
            ));
            if is_sep {
                assert(done =~= done.drop_last().push((c0, k as int)));
            }
        }
        assert(done + clause_ranges(t@, toks@, k + 1, f.last as int, depth as int, cs as int)
            =~= fun_clauses(t@, toks@, f)) by {
            if is_sep {
                assert(done.drop_last() + seq![(c0, k as int)] =~= done);
            } else {
            }
        }
        k = k + 1;
    }
    proof {
        assert(clause_ranges(t@, toks@, k as int, f.last as int, depth as int, cs as int) =~= Seq::<
            (int, int),
        >::empty());
        assert(done + Seq::<(int, int)>::empty() =~= done);
    }
    out
}

/// Token `m` is the variable that token `var` names.
pub open spec fn occurs(t: Seq<char>, toks: Seq<Token>, var: int, m: int) -> bool {
    toks[m].kind == TokenKind::Var && same_text(t, toks[m], toks[var])
}

/// The variable of token `var` occurs among tokens `from..=to`.
pub open spec fn found_in(t: Seq<char>, toks: Seq<Token>, var: int, from: int, to: int) -> bool {
    exists|m: int| from <= m <= to && 0 <= m < toks.len() && #[trigger] occurs(t, toks, var, m)
}

/// ... and one such occurrence is followed by `=`.
pub open spec fn rebound_in(t: Seq<char>, toks: Seq<Token>, var: int, from: int, to: int) -> bool {
    exists|m: int|
        from <= m <= to && 0 <= m < toks.len() && #[trigger] occurs(t, toks, var, m) && m + 1
            < toks.len() && toks[m + 1].kind == TokenKind::Punct('=')
}

/// Whether the variable token `var` occurs in tokens `from..=to`, and
/// whether any such occurrence is followed by `=`.
fn occurrences(t: &[char], toks: &Vec<Token>, var: usize, from: usize, to: usize) -> (r: (bool, bool))
    requires
        var < toks@.len(),
        to < toks@.len(),
    ensures
        r.0 == found_in(t@, toks@, var as int, from as int, to as int),
        r.1 == rebound_in(t@, toks@, var as int, from as int, to as int),
{
    let mut found = false;
    let mut bound = false;
    let mut k: usize = from;
    while k <= to && k < toks.len()
        invariant
            var < toks@.len(),
            to < toks@.len(),
            from <= k,
            found == (exists|m: int| from <= m < k && m <= to && 0 <= m < toks@.len() && #[trigger] occurs(t@, toks@, var as int, m)),
            bound == (exists|m: int|
                from <= m < k && m <= to && 0 <= m < toks@.len() && #[trigger] occurs(t@, toks@, var as int, m) && m + 1
                    < toks@.len() && toks@[m + 1].kind == TokenKind::Punct('=')),
        decreases toks@.len() - k,
    {
        if toks[k].kind == TokenKind::Var && same_token_text(t, toks[k], toks[var]) {
            assert(occurs(t@, toks@, var as int, k as int));
            found = true;
            if k + 1 < toks.len() && toks[k + 1].kind == TokenKind::Punct('=') {
                bound = true;
            }
        }
        k = k + 1;
    }
    proof {
        if found_in(t@, toks@, var as int, from as int, to as int) {
            let m = choose|m: int|
                from <= m <= to && 0 <= m < toks@.len() && #[trigger] occurs(t@, toks@, var as int, m);
            assert(m < k);
        }
        if rebound_in(t@, toks@, var as int, from as int, to as int) {
            let m = choose|m: int|
                from <= m <= to && 0 <= m < toks@.len() && #[trigger] occurs(t@, toks@, var as int, m)
                    && m + 1 < toks@.len() && toks@[m + 1].kind == TokenKind::Punct('=');
            assert(m < k);
        }
    }
    (found, bound)
}

pub open spec fn sep_before(k: TokenKind) -> bool {
    k == TokenKind::Punct(',') || k == TokenKind::Punct('>')
}

/// Token `k` is the `=` of a statement `V = V`, followed by a comma, whose
/// variable is bound earlier in the clause `cs..=ce`.
pub open spec fn trivial_hit(t: Seq<char>, toks: Seq<Token>, cs: int, ce: int, k: int) -> bool {
    &&& sep_before(toks[k - 2].kind)
    &&& toks[k].kind == TokenKind::Punct('=')
    &&& toks[k - 1].kind == TokenKind::Var
    &&& toks[k + 1].kind == TokenKind::Var
    &&& toks[k + 2].kind == TokenKind::Punct(',')
    &&& same_text(t, toks[k - 1], toks[k + 1])
    &&& found_in(t, toks, k - 1, cs, k - 2)
}

/// Token `k` is the `=` of a statement `Y = X` of two variables where `Y`
/// is bound only there in the clause `cs..=ce` and used later.
pub open spec fn redundant_hit(t: Seq<char>, toks: Seq<Token>, cs: int, ce: int, k: int) -> bool {
    &&& sep_before(toks[k - 2].kind)
    &&& (toks[k + 2].kind == TokenKind::Punct(',') || toks[k + 2].kind == TokenKind::Punct(';')
        || toks[k + 2].kind == TokenKind::Dot)
    &&& toks[k].kind == TokenKind::Punct('=')
    &&& toks[k - 1].kind == TokenKind::Var
    &&& toks[k + 1].kind == TokenKind::Var
    &&& !found_in(t, toks, k - 1, cs, k - 2)
    &&& found_in(t, toks, k - 1, k + 2, ce)
    &&& !rebound_in(t, toks, k - 1, k + 2, ce)
}

/// The reports `(k, ce)` of a clause `cs..=ce`, scanning from `k`: trivial
/// matches, or with `redundant` redundant assignments.
pub open spec fn clause_hits_from(t: Seq<char>, toks: Seq<Token>, cs: int, ce: int, k: int, redundant: bool) -> Seq<
    (int, int),
>
    decreases ce - k,
{
    let stop = if redundant {
        ce - 1
    } else {
        ce - 2
    };
    if k < 2 || k >= stop {
        Seq::empty()
    } else {
        (if (redundant && redundant_hit(t, toks, cs, ce, k)) || (!redundant && trivial_hit(
            t,
            toks,
            cs,
            ce,
            k,
        )) {
            seq![(k, ce)]
        } else {
            Seq::empty()
        }) + clause_hits_from(t, toks, cs, ce, k + 1, redundant)
    }
}

pub open spec fn clause_hits(t: Seq<char>, toks: Seq<Token>, cs: int, ce: int, redundant: bool) -> Seq<
    (int, int),
> {
    if ce - cs < (if redundant {
        4int
    } else {
        5int
    }) {
        Seq::empty()
    } else {
        clause_hits_from(t, toks, cs, ce, cs + 2, redundant)
    }
}

/// The reports of clauses `cl[0..n]`.
pub open spec fn clauses_hits(t: Seq<char>, toks: Seq<Token>, cl: Seq<(int, int)>, n: int, redundant: bool) -> Seq<
    (int, int),
>
    decreases n,
{
    if n <= 0 {
        Seq::empty()
    } else {
        clauses_hits(t, toks, cl, n - 1, redundant) + clause_hits(
            t,
            toks,
            cl[n - 1].0,
            cl[n - 1].1,
            redundant,
        )
    }
}

/// The reports of forms `0..n`.
pub open spec fn pass_hits(
    t: Seq<char>,
    toks: Seq<Token>,
    forms: Seq<Form>,
    kinds: Seq<FormKind>,
    n: int,
    redundant: bool,
) -> Seq<(int, int)>
    decreases n,
{
    if n <= 0 {
        Seq::empty()
    } else {
        pass_hits(t, toks, forms, kinds, n - 1, redundant) + if kinds[n - 1] == FormKind::FunDecl {
            clauses_hits(
                t,
                toks,
                fun_clauses(t, toks, forms[n - 1]),
                fun_clauses(t, toks, forms[n - 1]).len() as int,
                redundant,
            )
        } else {
            Seq::empty()
        }
    }
}

/// The edits renaming each occurrence of the variable of token `var` among
/// tokens `from..=to` to `name`.
pub open spec fn renamings(t: Seq<char>, toks: Seq<Token>, var: int, from: int, to: int, name: Seq<char>) -> Seq<
    (TextRange, Seq<char>),
>
    decreases to + 1 - from,
{
    if from < 0 || from > to || from >= toks.len() {
        Seq::empty()
    } else {
        (if occurs(t, toks, var, from) {
            seq![(token_range(toks[from]), name)]
        } else {
            Seq::empty()
        }) + renamings(t, toks, var, from + 1, to, name)
    }
}

pub open spec fn edits_are(es: Seq<TextEdit>, want: Seq<(TextRange, Seq<char>)>) -> bool {
    &&& es.len() == want.len()
    &&& forall|j: int| 0 <= j < es.len() ==> (#[trigger] es[j]).delete == want[j].0 && es[j].insert@ == want[j].1
}

pub open spec fn trivial_message() -> Seq<char> {
    seq!['m', 'a', 't', 'c', 'h', ' ', 'i', 's', ' ', 'r', 'e', 'd', 'u', 'n', 'd', 'a', 'n', 't']
}

pub open spec fn redundant_message() -> Seq<char> {
    seq!['a', 's', 's', 'i', 'g', 'n', 'm', 'e', 'n', 't', ' ', 'i', 's', ' ', 'r', 'e', 'd', 'u', 'n', 'd', 'a', 'n', 't']
}

/// `d` reports hit `h = (k, ce)`: a weak warning on `V = W` with one fix.
/// A trivial match's fix deletes the statement and its comma; a redundant
/// assignment's fix renames `Y`, from the assignment to the end of the
/// clause, to `X`.
pub open spec fn reports_hit(t: Seq<char>, toks: Seq<Token>, d: Diagnostic, h: (int, int), redundant: bool) -> bool {
    let k = h.0;
    &&& d.range == (TextRange { start: toks[k - 1].start as u32, end: toks[k + 1].end as u32 })
    &&& d.severity == Severity::WeakWarning
    &&& !d.experimental
    &&& d.fixes is Some
    &&& d.fixes->Some_0@.len() == 1
    &&& if redundant {
        &&& d.code@ == crate::code::CodeView::RedundantAssignment
        &&& d.message@ == redundant_message()
        &&& edits_are(
            d.fixes->Some_0@[0].edits@,
            renamings(
                t,
                toks,
                k - 1,
                k - 1,
                h.1,
                t.subrange(toks[k + 1].start as int, toks[k + 1].end as int),
            ),
        )
    } else {
        &&& d.code@ == crate::code::CodeView::TrivialMatch
        &&& d.message@ == trivial_message()
        &&& edits_are(
            d.fixes->Some_0@[0].edits@,
            seq![
                (
                    TextRange { start: toks[k - 1].start as u32, end: toks[k + 3].start as u32 },
                    Seq::<char>::empty(),
                ),
            ],
        )
    }
}

/// `out` extends `old` by one diagnostic for each of `hits`.
pub open spec fn extends_with_hits(
    t: Seq<char>,
    toks: Seq<Token>,
    out: Seq<Diagnostic>,
    old: Seq<Diagnostic>,
    hits: Seq<(int, int)>,
    redundant: bool,
) -> bool {
    &&& out.len() == old.len() + hits.len()
    &&& forall|j: int| 0 <= j < old.len() ==> #[trigger] out[j] == old[j]
    &&& forall|j: int|
        0 <= j < hits.len() ==> reports_hit(t, toks, #[trigger] out[old.len() + j], hits[j], redundant)
}

proof fn lemma_extends_hits_compose(
    t: Seq<char>,
    toks: Seq<Token>,
    a: Seq<Diagnostic>,
    b: Seq<Diagnostic>,
    c: Seq<Diagnostic>,
    g1: Seq<(int, int)>,
    g2: Seq<(int, int)>,
    redundant: bool,
)
    requires
        extends_with_hits(t, toks, b, a, g1, redundant),
        extends_with_hits(t, toks, c, b, g2, redundant),
    ensures
        extends_with_hits(t, toks, c, a, g1 + g2, redundant),
{
    assert forall|j: int| 0 <= j < (g1 + g2).len() implies reports_hit(
        t,
        toks,
        #[trigger] c[a.len() + j],
        (g1 + g2)[j],
        redundant,
    ) by {
        if j < g1.len() {
            assert(c[a.len() + j] == b[a.len() + j]);
        } else {
            assert(c[b.len() + (j - g1.len())] == c[a.len() + j]);
        }
    }
    assert forall|j: int| 0 <= j < a.len() implies #[trigger] c[j] == a[j] by {
        assert(c[j] == b[j]);
    }
}

pub open spec fn redundant_ok(t: Seq<char>, d: Diagnostic) -> bool {
    &&& d.range.start <= d.range.end <= t.len()
    &&& d.severity == Severity::WeakWarning
    &&& d.code is RedundantAssignment
    &&& d.fixes is Some
    &&& d.fixes->Some_0@.len() == 1
    &&& edits_ok(t, d.fixes->Some_0@[0].edits@)
}

pub open spec fn trivial_ok(t: Seq<char>, d: Diagnostic) -> bool {
    &&& d.range.start <= d.range.end <= t.len()
    &&& d.severity == Severity::WeakWarning
    &&& d.code is TrivialMatch
    &&& d.fixes is Some
    &&& d.fixes->Some_0@.len() == 1
    &&& edits_ok(t, d.fixes->Some_0@[0].edits@)
}

pub open spec fn hit_ok(t: Seq<char>, d: Diagnostic, redundant: bool) -> bool {
    if redundant {
        redundant_ok(t, d)
    } else {
        trivial_ok(t, d)
    }
}

/// The edits renaming the occurrences of variable token `var` in tokens
/// `from..=to` to `name`, in text order.
fn rename_edits(t: &[char], toks: &Vec<Token>, var: usize, from: usize, to: usize, name: &String) -> (r: Vec<TextEdit>)
    requires
        t@.len() <= u32::MAX,
        tokens_ok(t@, toks@),
        var < toks@.len(),
        to < toks@.len(),
    ensures
        edits_ok(t@, r@),
        edits_are(r@, renamings(t@, toks@, var as int, from as int, to as int, name@)),
{
    let mut edits: Vec<TextEdit> = Vec::new();
    let ghost mut done: Seq<(TextRange, Seq<char>)> = Seq::empty();
    let mut k: usize = from;
    while k <= to && k < toks.len()
        invariant
            t@.len() <= u32::MAX,
            tokens_ok(t@, toks@),
            var < toks@.len(),
            to < toks@.len(),
            from <= k,
            edits_ok(t@, edits@),
            edits@.len() > 0 ==> exists|j: int| 0 <= j < k && edits@.last().delete.end == toks@[j].end,
            edits_are(edits@, done),
            done + renamings(t@, toks@, var as int, k as int, to as int, name@) == renamings(
                t@,
                toks@,
                var as int,
                from as int,
                to as int,
                name@,
            ),
        decreases toks@.len() - k,
    {
        let ghost rest = renamings(t@, toks@, var as int, k as int, to as int, name@);
        if toks[k].kind == TokenKind::Var && same_token_text(t, toks[k], toks[var]) {
            let tok = toks[k];
            proof {
                lemma_token(t@, toks@, k as int);
                if edits@.len() > 0 {
                    let j = choose|j: int| 0 <= j < k && edits@.last().delete.end == toks@[j].end;
                    lemma_tokens_ordered(t@, toks@, j, k as int);
                }
            }
            let ghost before = edits@;
            let ins = name.clone();
            edits.push(TextEdit {
                delete: TextRange { start: tok.start as u32, end: tok.end as u32 },
                insert: ins,
            });
            proof {
                assert forall|m: int| 0 < m < edits@.len() implies edits@[m - 1].delete.end <= (
                #[trigger] edits@[m]).delete.start by {
                    if m < edits@.len() - 1 {
                        assert(edits@[m - 1] == before[m - 1] && edits@[m] == before[m]);
                    }
                }
                assert forall|m: int| 0 <= m < edits@.len() implies (#[trigger] edits@[m]).delete.start
                    <= edits@[m].delete.end <= t@.len() by {
                    if m < edits@.len() - 1 {
                        assert(edits@[m] == before[m]);
                    }
                }
                assert(edits@.last().delete.end == toks@[k as int].end);
                assert(occurs(t@, toks@, var as int, k as int));
                let e = (token_range(tok), name@);
                assert forall|j: int| 0 <= j < edits@.len() implies (#[trigger] edits@[j]).delete
                    == done.push(e)[j].0 && edits@[j].insert@ == done.push(e)[j].1 by {
                    if j < before.len() {
                        assert(edits@[j] == before[j]);
                    }
                }
                assert(done.push(e) + renamings(t@, toks@, var as int, k + 1, to as int, name@)
                    =~= done + rest);
                done = done.push(e);
            }
        } else {
            proof {
                assert(!occurs(t@, toks@, var as int, k as int));
                assert(done + renamings(t@, toks@, var as int, k + 1, to as int, name@) =~= done + rest);
            }
        }
        k = k + 1;
    }
    proof {
        assert(renamings(t@, toks@, var as int, k as int, to as int, name@) =~= Seq::<
            (TextRange, Seq<char>),
        >::empty());
        assert(done + Seq::<(TextRange, Seq<char>)>::empty() =~= done);
    }
    edits
}

/// The diagnostic for hit `k` of clause `cs..=ce`.
fn hit_diagnostic(t: &[char], toks: &Vec<Token>, k: usize, ce: usize, redundant: bool) -> (d: Diagnostic)
    requires
        t@.len() <= u32::MAX,
        tokens_ok(t@, toks@),
        2 <= k,
        k + 3 <= ce + 1,
        ce < toks@.len(),
        !redundant ==> k + 3 <= ce,
    ensures
        reports_hit(t@, toks@, d, (k as int, ce as int), redundant),
        hit_ok(t@, d, redundant),
{
    let lhs = toks[k - 1];
    let rhs = toks[k + 1];
    proof {
        lemma_token(t@, toks@, k - 1);
        lemma_token(t@, toks@, k + 1);
        lemma_tokens_ordered(t@, toks@, k - 1, k + 1);
    }
    let range = TextRange { start: lhs.start as u32, end: rhs.end as u32 };
    if redundant {
        let name = string_of(sub_chars(t, rhs.start, rhs.end).as_slice());
        let edits = rename_edits(t, toks, k - 1, k - 1, ce, &name);
        let fix = Assist {
            id: String::from_str("remove_redundant_assignment"),
            label: String::from_str("Use right-hand of assignment everywhere"),
            target: range,
            edits,
        };
        let mut fixes: Vec<Assist> = Vec::new();
        fixes.push(fix);
        proof {
            reveal_strlit("assignment is redundant");
            assert("assignment is redundant"@ =~= redundant_message());
        }
        Diagnostic::new(
            DiagnosticCode::RedundantAssignment,
            String::from_str("assignment is redundant"),
            range,
        ).severity(Severity::WeakWarning).with_fixes(Some(fixes))
    } else {
        let next = toks[k + 3];
        proof {
            lemma_token(t@, toks@, k + 3);
            lemma_tokens_ordered(t@, toks@, k - 1, k + 3);
        }
        let mut edits: Vec<TextEdit> = Vec::new();
        edits.push(
            TextEdit {
                delete: TextRange { start: lhs.start as u32, end: next.start as u32 },
                insert: String::new(),
            },
        );
        let fix = Assist {
            id: String::from_str("remove_match"),
            label: String::from_str("Remove match"),
            target: range,
            edits,
        };
        let mut fixes: Vec<Assist> = Vec::new();
        fixes.push(fix);
        proof {
            reveal_strlit("match is redundant");
            assert("match is redundant"@ =~= trivial_message());
        }
        Diagnostic::new(
            DiagnosticCode::TrivialMatch,
            String::from_str("match is redundant"),
            range,
        ).severity(Severity::WeakWarning).with_fixes(Some(fixes))
    }
}

/// Reports the hits of clause `cs..=ce`: trivial matches, or with
/// `redundant` redundant assignments.
#[verifier::rlimit(60)]
fn check_clause(out: &mut Vec<Diagnostic>, t: &[char], toks: &Vec<Token>, cs: usize, ce: usize, redundant: bool)
    requires
        t@.len() <= u32::MAX,
        tokens_ok(t@, toks@),
        cs <= ce < toks@.len(),
        forall|k: int| 0 <= k < old(out)@.len() ==> hit_ok(t@, #[trigger] old(out)@[k], redundant),
    ensures
        forall|k: int| 0 <= k < final(out)@.len() ==> hit_ok(t@, #[trigger] final(out)@[k], redundant),
        extends_with_hits(
            t@,
            toks@,
            final(out)@,
            old(out)@,
            clause_hits(t@, toks@, cs as int, ce as int, redundant),
            redundant,
        ),
{
    let min: usize = if redundant {
        4
    } else {
        5
    };
    if ce - cs < min {
        assert(old(out)@ =~= out@);
        return;
    }
    let stop: usize = if redundant {
        ce - 1
    } else {
        ce - 2
    };
    let mut k: usize = cs + 2;
    let ghost mut done: Seq<(int, int)> = Seq::empty();
    while k < stop
        invariant
            t@.len() <= u32::MAX,
            tokens_ok(t@, toks@),
            cs <= ce < toks@.len(),
            ce - cs >= min,
            min == (if redundant { 4usize } else { 5usize }),
            stop == (if redundant { ce - 1 } else { ce - 2 }),
            cs + 2 <= k,
            k <= stop,
            forall|m: int| 0 <= m < out@.len() ==> hit_ok(t@, #[trigger] out@[m], redundant),
            extends_with_hits(t@, toks@, out@, old(out)@, done, redundant),
            done + clause_hits_from(t@, toks@, cs as int, ce as int, k as int, redundant) == clause_hits(
                t@,
                toks@,
                cs as int,
                ce as int,
                redundant,
            ),
        decreases stop - k,
    {
        let ghost rest = clause_hits_from(t@, toks@, cs as int, ce as int, k as int, redundant);
        let sep_b = match toks[k - 2].kind {
            TokenKind::Punct(c) => c == ',' || c == '>',
            _ => false,
        };
        let shape = sep_b && toks[k].kind == TokenKind::Punct('=') && toks[k - 1].kind
            == TokenKind::Var && toks[k + 1].kind == TokenKind::Var;
        let hit = if redundant {
            let sep_a = match toks[k + 2].kind {
                TokenKind::Punct(c) => c == ',' || c == ';',
                TokenKind::Dot => true,
                _ => false,
            };
            if shape && sep_a {
                let (before, _) = occurrences(t, toks, k - 1, cs, k - 2);
                let (after, rebound) = occurrences(t, toks, k - 1, k + 2, ce);
                !before && after && !rebound
            } else {
                false
            }
        } else {
            if shape && toks[k + 2].kind == TokenKind::Punct(',') && same_token_text(
                t,
                toks[k - 1],
                toks[k + 1],
            ) {
                let (bound, _) = occurrences(t, toks, k - 1, cs, k - 2);
                bound
            } else {
                false
            }
        };
        proof {
            assert(hit == ((redundant && redundant_hit(t@, toks@, cs as int, ce as int, k as int)) || (
            !redundant && trivial_hit(t@, toks@, cs as int, ce as int, k as int))));
        }
        if hit {
            let d = hit_diagnostic(t, toks, k, ce, redundant);
            let ghost before = out@;
            out.push(d);
            proof {
                let h = (k as int, ce as int);
                assert forall|j: int| 0 <= j < old(out)@.len() implies #[trigger] out@[j] == old(out)@[j] by {
                    assert(out@[j] == before[j]);
                }
                assert forall|j: int| 0 <= j < done.push(h).len() implies reports_hit(
                    t@,
                    toks@,
                    #[trigger] out@[old(out)@.len() + j],
                    done.push(h)[j],
                    redundant,
                ) by {
                    if j < done.len() {
                        assert(out@[old(out)@.len() + j] == before[old(out)@.len() + j]);
                    }
                }
                assert(done.push(h) + clause_hits_from(t@, toks@, cs as int, ce as int, k + 1, redundant)
                    =~= done + rest);
                done = done.push(h);
            }
        } else {
            proof {
                assert(done + clause_hits_from(t@, toks@, cs as int, ce as int, k + 1, redundant)
                    =~= done + rest);
            }
        }
        k = k + 1;
    }
    proof {
        assert(clause_hits_from(t@, toks@, cs as int, ce as int, k as int, redundant) =~= Seq::<
            (int, int),
        >::empty());
        assert(done + Seq::<(int, int)>::empty() =~= done);
    }
}

/// The hits of a pass over the function declarations of a file.
#[verifier::rlimit(60)]
fn function_hits(t: &[char], toks: &Vec<Token>, forms: &Vec<Form>, kinds: &Vec<FormKind>, redundant: bool) -> (r: Vec<
    Diagnostic,
>)
    requires
        t@.len() <= u32::MAX,
        tokens_ok(t@, toks@),
        forms_ok(toks@, forms@),
        kinds@.len() == forms@.len(),
    ensures
        forall|k: int| 0 <= k < r@.len() ==> hit_ok(t@, #[trigger] r@[k], redundant),
        extends_with_hits(
            t@,
            toks@,
            r@,
            Seq::empty(),
            pass_hits(t@, toks@, forms@, kinds@, forms@.len() as int, redundant),
            redundant,
        ),
{
    let mut out: Vec<Diagnostic> = Vec::new();
    let mut i: usize = 0;
    while i < forms.len()
        invariant
            t@.len() <= u32::MAX,
            tokens_ok(t@, toks@),
            forms_ok(toks@, forms@),
            kinds@.len() == forms@.len(),
            i <= forms@.len(),
            forall|m: int| 0 <= m < out@.len() ==> hit_ok(t@, #[trigger] out@[m], redundant),
            extends_with_hits(
                t@,
                toks@,
                out@,
                Seq::empty(),
                pass_hits(t@, toks@, forms@, kinds@, i as int, redundant),
                redundant,
            ),
        decreases forms@.len() - i,
    {
        let f = forms[i];
        assert(forms@[i as int].first <= forms@[i as int].last < toks@.len());
        let ghost start = out@;
        if kinds[i] == FormKind::FunDecl {
            let cl = clauses_of(t, toks, f);
            let ghost spec_cl = fun_clauses(t@, toks@, f);
            let mut c: usize = 0;
            while c < cl.len()
                invariant
                    t@.len() <= u32::MAX,
                    tokens_ok(t@, toks@),
                    f.first <= f.last < toks@.len(),
                    spec_cl == fun_clauses(t@, toks@, f),
                    cl@.len() == spec_cl.len(),
                    forall|j: int|
                        0 <= j < cl@.len() ==> (#[trigger] cl@[j]).0 as int == spec_cl[j].0
                            && cl@[j].1 as int == spec_cl[j].1 && f.first <= cl@[j].0 <= cl@[j].1 <= f.last,
                    c <= cl@.len(),
                    forall|m: int| 0 <= m < out@.len() ==> hit_ok(t@, #[trigger] out@[m], redundant),
                    extends_with_hits(
                        t@,
                        toks@,
                        out@,
                        start,
                        clauses_hits(t@, toks@, spec_cl, c as int, redundant),
                        redundant,
                    ),
                decreases cl@.len() - c,
            {
                let (cs, ce) = cl[c];
                let ghost mid = out@;
                check_clause(&mut out, t, toks, cs, ce, redundant);
                proof {
                    lemma_extends_hits_compose(
                        t@,
                        toks@,
                        start,
                        mid,
                        out@,
                        clauses_hits(t@, toks@, spec_cl, c as int, redundant),
                        clause_hits(t@, toks@, cs as int, ce as int, redundant),
                        redundant,
                    );
                }
                c = c + 1;
            }
            proof {
                lemma_extends_hits_compose(
                    t@,
                    toks@,
                    Seq::empty(),
                    start,
                    out@,
                    pass_hits(t@, toks@, forms@, kinds@, i as int, redundant),
                    clauses_hits(t@, toks@, spec_cl, spec_cl.len() as int, redundant),
                    redundant,
                );
            }
        } else {
            proof {
                assert(pass_hits(t@, toks@, forms@, kinds@, i + 1, redundant) =~= pass_hits(
                    t@,
                    toks@,
                    forms@,
                    kinds@,
                    i as int,
                    redundant,
                ));
            }
        }
        i = i + 1;
    }
    out
}

/// Trivial matches `V = V` of a bound variable in the function
/// declarations of a file: one weak warning per hit that `pass_hits` names,
/// in order, each with the fix that deletes the statement.
pub fn trivial_match(
    t: &[char],
    toks: &Vec<Token>,
    forms: &Vec<Form>,
    kinds: &Vec<FormKind>,
) -> (r: Vec<Diagnostic>)
    requires
        t@.len() <= u32::MAX,
        tokens_ok(t@, toks@),
        forms_ok(toks@, forms@),
        kinds@.len() == forms@.len(),
    ensures
        forall|k: int| 0 <= k < r@.len() ==> trivial_ok(t@, #[trigger] r@[k]),
        extends_with_hits(
            t@,
            toks@,
            r@,
            Seq::empty(),
            pass_hits(t@, toks@, forms@, kinds@, forms@.len() as int, false),
            false,
        ),
{
    let r = function_hits(t, toks, forms, kinds, false);
    assert forall|k: int| 0 <= k < r@.len() implies trivial_ok(t@, #[trigger] r@[k]) by {
        assert(hit_ok(t@, r@[k], false));
    }
    r
}

/// Redundant assignments `Y = X` in the function declarations of a file:
/// one weak warning per hit that `pass_hits` names, in order, each with the
/// fix that renames `Y` to `X` from the assignment to the end of the clause.
pub fn redundant_assignment(
    t: &[char],
    toks: &Vec<Token>,
    forms: &Vec<Form>,
    kinds: &Vec<FormKind>,
) -> (r: Vec<Diagnostic>)
    requires
        t@.len() <= u32::MAX,
        tokens_ok(t@, toks@),
        forms_ok(toks@, forms@),
        kinds@.len() == forms@.len(),
    ensures
        forall|k: int| 0 <= k < r@.len() ==> redundant_ok(t@, #[trigger] r@[k]),
        extends_with_hits(
            t@,
            toks@,
            r@,
            Seq::empty(),
            pass_hits(t@, toks@, forms@, kinds@, forms@.len() as int, true),
            true,
        ),
{
    let r = function_hits(t, toks, forms, kinds, true);
    assert forall|k: int| 0 <= k < r@.len() implies redundant_ok(t@, #[trigger] r@[k]) by {
        assert(hit_ok(t@, r@[k], true));
    }
    r
}

// ---------------------------------------------------------------------
// Folding ranges.

#[derive(Debug, Clone, Copy, PartialEq, Eq, Structural)]
pub enum FoldKind {
    Function,
    Record,
    DocAttribute,
}

#[derive(Debug, Clone, Copy, PartialEq, Eq, Structural)]
pub struct Fold {
    pub range: TextRange,
    pub kind: FoldKind,
}

/// The region kind a form of `kind` folds as, if any.
pub open spec fn fold_kind_of(kind: FormKind) -> Option<FoldKind> {
    match kind {
        FormKind::FunDecl => Some(FoldKind::Function),
        FormKind::Record => Some(FoldKind::Record),
        FormKind::DocAttribute => Some(FoldKind::DocAttribute),
        _ => None,
    }
}

/// The folding regions of forms `0..n`, each over its whole form.
pub open spec fn folds_upto(toks: Seq<Token>, forms: Seq<Form>, kinds: Seq<FormKind>, n: int) -> Seq<Fold>
    decreases n,
{
    if n <= 0 {
        Seq::empty()
    } else {
        folds_upto(toks, forms, kinds, n - 1) + match fold_kind_of(kinds[n - 1]) {
            Some(k) => seq![
                Fold {
                    range: TextRange {
                        start: toks[forms[n - 1].first as int].start as u32,
                        end: toks[forms[n - 1].last as int].end as u32,
                    },
                    kind: k,
                },
            ],
            None => Seq::empty(),
        }
    }
}

#[verifier::rlimit(100)]
fn folds_of(t: &[char], toks: &Vec<Token>, forms: &Vec<Form>, kinds: &Vec<FormKind>) -> (r: Vec<Fold>)
    requires
        t@.len() <= u32::MAX,
        tokens_ok(t@, toks@),
        forms_ok(toks@, forms@),
        kinds@.len() == forms@.len(),
    ensures
        r@ == folds_upto(toks@, forms@, kinds@, forms@.len() as int),
        forall|k: int|
            0 <= k < r@.len() ==> (#[trigger] r@[k]).range.start < r@[k].range.end <= t@.len(),
{
    let mut folds: Vec<Fold> = Vec::new();
    let mut i: usize = 0;
    while i < forms.len()
        invariant
            t@.len() <= u32::MAX,
            tokens_ok(t@, toks@),
            forms_ok(toks@, forms@),
            kinds@.len() == forms@.len(),
            i <= forms@.len(),
            folds@ == folds_upto(toks@, forms@, kinds@, i as int),
            forall|k: int|
                0 <= k < folds@.len() ==> (#[trigger] folds@[k]).range.start < folds@[k].range.end
                    <= t@.len(),
        decreases forms@.len() - i,
    {
        let f = forms[i];
        assert(forms@[i as int].first <= forms@[i as int].last < toks@.len());
        proof {
            lemma_token(t@, toks@, f.first as int);
            lemma_token(t@, toks@, f.last as int);
            if f.first < f.last {
                lemma_tokens_ordered(t@, toks@, f.first as int, f.last as int);
            }
        }
        let kind = match kinds[i] {
            FormKind::FunDecl => Some(FoldKind::Function),
            FormKind::Record => Some(FoldKind::Record),
            FormKind::DocAttribute => Some(FoldKind::DocAttribute),
            _ => None,
        };
        let ghost before = folds@;
        if let Some(kind) = kind {
            folds.push(
                Fold {
                    range: TextRange { start: toks[f.first].start as u32, end: toks[f.last].end as u32 },
                    kind,
                },
            );
        } else {
            assert(folds@ =~= before + Seq::<Fold>::empty());
        }
        i = i + 1;
    }
    folds
}

/// The folding regions of a file: each function declaration, record
/// declaration and doc attribute, over its whole form, in text order.
pub fn folding_ranges(text: &str) -> (r: Vec<Fold>)
    requires
        text@.len() <= u32::MAX,
    ensures
        r@ == folds_upto(
            tokens_of(text@),
            forms_of(tokens_of(text@)),
            crate::diagnostics::kinds_of(text@),
            forms_of(tokens_of(text@)).len() as int,
        ),
        forall|k: int|
            0 <= k < r@.len() ==> (#[trigger] r@[k]).range.start < r@[k].range.end <= text@.len(),
{
    let t = chars_of(text);
    let toks = tokenize(t.as_slice());
    let forms = split_forms(&toks);
    let kinds = form_kinds(t.as_slice(), &toks, &forms);
    assert(kinds@ =~= crate::diagnostics::kinds_of(text@));
    folds_of(t.as_slice(), &toks, &forms, &kinds)
}

/// The kind of each form.
pub fn form_kinds(t: &[char], toks: &Vec<Token>, forms: &Vec<Form>) -> (r: Vec<FormKind>)
    requires
        forms_ok(toks@, forms@),
    ensures
        r@.len() == forms@.len(),
        forall|k: int| 0 <= k < r@.len() ==> #[trigger] r@[k] == form_kind_spec(t@, toks@, forms@[k]),
        forall|k: int|
            0 <= k < r@.len() && #[trigger] r@[k] == FormKind::FunDecl ==> toks@[forms@[k].first as int].kind
                == TokenKind::Atom,
{
    let mut kinds: Vec<FormKind> = Vec::new();
    let mut i: usize = 0;
    while i < forms.len()
        invariant
            forms_ok(toks@, forms@),
            i <= forms@.len(),
            kinds@.len() == i,
            forall|k: int| 0 <= k < kinds@.len() ==> #[trigger] kinds@[k] == form_kind_spec(t@, toks@, forms@[k]),
            forall|k: int|
                0 <= k < kinds@.len() && #[trigger] kinds@[k] == FormKind::FunDecl
                    ==> toks@[forms@[k].first as int].kind == TokenKind::Atom,
        decreases forms@.len() - i,
    {
        assert(forms@[i as int].first <= forms@[i as int].last < toks@.len());
        let k = form_kind(t, toks, forms[i]);
        kinds.push(k);
        i = i + 1;
    }
    kinds
}

pub(crate) proof fn lemma_first_form_in_range(kinds: Seq<FormKind>)
    ensures
        first_form_before_module(kinds) is Some ==> 0 <= first_form_before_module(kinds)->Some_0
            < kinds.len(),
    decreases kinds.len(),
{
    if kinds.len() > 0 {
        lemma_first_form_in_range(kinds.drop_first());
    }
}

/// The first of `forms[k..]` whose text holds position `off`.
pub open spec fn form_holding(toks: Seq<Token>, forms: Seq<Form>, off: int, k: int) -> Option<int>
    decreases forms.len() - k,
{
    if k < 0 || k >= forms.len() {
        None
    } else if toks[forms[k].first as int].start <= off < toks[forms[k].last as int].end {
        Some(k)
    } else {
        form_holding(toks, forms, off, k + 1)
    }
}

pub open spec fn token_range(tok: Token) -> TextRange {
    TextRange { start: tok.start as u32, end: tok.end as u32 }
}

/// The name range of the declaration of `kind` (a function or a record)
/// whose form holds `off`: the first token of a function declaration, the
/// atom after the first `(` of a record declaration.
pub open spec fn declaration_name(t: Seq<char>, off: int, kind: FormKind) -> Option<TextRange> {
    let toks = tokens_of(t);
    let forms = forms_of(toks);
    match form_holding(toks, forms, off, 0) {
        Some(k) => {
            let f = forms[k];
            let fk = form_kind_spec(t, toks, f);
            if fk == FormKind::FunDecl && kind == FormKind::FunDecl {
                Some(token_range(toks[f.first as int]))
            } else if fk == FormKind::Record && kind == FormKind::Record {
                match first_punct(toks, f.first as int, f.last as int, '(') {
                    Some(o) => if o < f.last && toks[o + 1].kind == TokenKind::Atom {
                        Some(token_range(toks[o + 1]))
                    } else {
                        None
                    },
                    None => None,
                }
            } else {
                None
            }
        },
        None => None,
    }
}

/// The first of `forms[k..]` whose lines span `line`.
pub open spec fn form_spanning(t: Seq<char>, toks: Seq<Token>, forms: Seq<Form>, line: int, k: int) -> Option<(int, int)>
    decreases forms.len() - k,
{
    if k < 0 || k >= forms.len() {
        None
    } else if line_of(t, toks[forms[k].first as int].start as int) <= line <= line_of(
        t,
        toks[forms[k].last as int].end as int,
    ) {
        Some(
            (
                line_of(t, toks[forms[k].first as int].start as int),
                line_of(t, toks[forms[k].last as int].end as int),
            ),
        )
    } else {
        form_spanning(t, toks, forms, line, k + 1)
    }
}

/// The range of the name of the function or record declaration (by `kind`)
/// that holds position `offset`.
pub fn declaration_name_range(text: &str, offset: u32, kind: FormKind) -> (r: Option<TextRange>)
    requires
        text@.len() <= u32::MAX,
    ensures
        r == declaration_name(text@, offset as int, kind),
        r is Some ==> r->Some_0.start < r->Some_0.end <= text@.len(),
{
    let t = chars_of(text);
    let toks = tokenize(t.as_slice());
    let forms = split_forms(&toks);
    let mut i: usize = 0;
    while i < forms.len()
        invariant
            t@ == text@,
            text@.len() <= u32::MAX,
            tokens_ok(t@, toks@),
            forms_ok(toks@, forms@),
            toks@ == tokens_of(t@),
            forms@ == forms_of(toks@),
            i <= forms@.len(),
            form_holding(toks@, forms@, offset as int, i as int) == form_holding(
                toks@,
                forms@,
                offset as int,
                0,
            ),
        decreases forms@.len() - i,
    {
        let f = forms[i];
        assert(forms@[i as int].first <= forms@[i as int].last < toks@.len());
        let start = toks[f.first].start;
        let end = toks[f.last].end;
        if start <= offset as usize && (offset as usize) < end {
            let k = form_kind(t.as_slice(), &toks, f);
            if k == FormKind::FunDecl && kind == FormKind::FunDecl {
                let name = toks[f.first];
                proof {
                    lemma_token(t@, toks@, f.first as int);
                }
                return Some(TextRange { start: name.start as u32, end: name.end as u32 });
            }
            if k == FormKind::Record && kind == FormKind::Record {
                if let Some(open) = find_punct(&toks, f.first, f.last, '(') {
                    if open < f.last && toks[open + 1].kind == TokenKind::Atom {
                        let name = toks[open + 1];
                        proof {
                            lemma_token(t@, toks@, open + 1);
                        }
                        return Some(TextRange { start: name.start as u32, end: name.end as u32 });
                    }
                }
            }
            return None;
        }
        i = i + 1;
    }
    None
}

/// The lines of the first form whose lines span `line`, from the line of
/// its first token to the line of the end of its last: the change range of
/// an edit starting on `line`.
pub fn form_range_from_diff(text: &str, line: u32) -> (r: Option<(u32, u32)>)
    requires
        text@.len() <= u32::MAX,
    ensures
        match r {
            Some((from, to)) => form_spanning(
                text@,
                tokens_of(text@),
                forms_of(tokens_of(text@)),
                line as int,
                0,
            ) == Some((from as int, to as int)) && from <= line <= to,
            None => form_spanning(text@, tokens_of(text@), forms_of(tokens_of(text@)), line as int, 0)
                is None,
        },
{
    let t = chars_of(text);
    let toks = tokenize(t.as_slice());
    let forms = split_forms(&toks);
    let mut i: usize = 0;
    while i < forms.len()
        invariant
            t@ == text@,
            text@.len() <= u32::MAX,
            tokens_ok(t@, toks@),
            forms_ok(toks@, forms@),
            i <= forms@.len(),
            toks@ == tokens_of(t@),
            forms@ == forms_of(toks@),
            form_spanning(t@, toks@, forms@, line as int, i as int) == form_spanning(
                t@,
                toks@,
                forms@,
                line as int,
                0,
            ),
        decreases forms@.len() - i,
    {
        let f = forms[i];
        assert(forms@[i as int].first <= forms@[i as int].last < toks@.len());
        proof {
            lemma_token(t@, toks@, f.first as int);
            lemma_token(t@, toks@, f.last as int);
        }
        let start = toks[f.first].start;
        let end = toks[f.last].end;
        let from = line_number(t.as_slice(), start as u32);
        let to = line_number(t.as_slice(), end as u32);
        if from <= line && line <= to {
            return Some((from, to));
        }
        i = i + 1;
    }
    None
}

/// The range of the name of the function declaration holding `offset`.
pub fn function_name_range(text: &str, offset: u32) -> (r: Option<TextRange>)
    requires
        text@.len() <= u32::MAX,
    ensures
        r == declaration_name(text@, offset as int, FormKind::FunDecl),
        r is Some ==> r->Some_0.start < r->Some_0.end <= text@.len(),
{
    declaration_name_range(text, offset, FormKind::FunDecl)
}

/// The range of the name of the record declaration holding `offset`.
pub fn record_name_range(text: &str, offset: u32) -> (r: Option<TextRange>)
    requires
        text@.len() <= u32::MAX,
    ensures
        r == declaration_name(text@, offset as int, FormKind::Record),
        r is Some ==> r->Some_0.start < r->Some_0.end <= text@.len(),
{
    declaration_name_range(text, offset, FormKind::Record)
}

} // verus!
