//! The assist that adds an implementation stub below a `-spec` that has
//! none.

use vstd::prelude::*;

use crate::diagnostics::decimal_chars;
use crate::diagnostics::Assist;
use crate::diagnostics::TextEdit;
use crate::diagnostics::TextRange;
use crate::forms::find_punct;
use crate::forms::form_kinds;
use crate::forms::forms_ok;
use crate::forms::lemma_token;
use crate::forms::same_token_text;
use crate::forms::split_forms;
use crate::forms::tokenize;
use crate::forms::tokens_ok;
use crate::forms::Form;
use crate::forms::FormKind;
use crate::forms::Token;
use crate::forms::TokenKind;
use crate::text::chars_of;
use crate::text::string_of;
use crate::text::sub_chars;

verus! {

/// The argument groups `(first, last)` token indices of the parenthesised
/// list opened at token `open`, split at commas outside nested brackets.
fn paren_args(toks: &Vec<Token>, open: usize, last: usize) -> (r: Vec<(usize, usize)>)
    requires
        last < toks@.len(),
    ensures
        forall|k: int| 0 <= k < r@.len() ==> (#[trigger] r@[k]).0 <= r@[k].1 < toks@.len(),
{
    let mut args: Vec<(usize, usize)> = Vec::new();
    if open >= last {
        return args;
    }
    let mut depth: usize = 0;
    let mut start: usize = open + 1;
    let mut k: usize = open + 1;
    while k <= last && k < toks.len()
        invariant
            last < toks@.len(),
            open < start <= k,
            forall|m: int| 0 <= m < args@.len() ==> (#[trigger] args@[m]).0 <= args@[m].1 < toks@.len(),
        decreases toks@.len() - k,
    {
        match toks[k].kind {
            TokenKind::Punct(c) => {
                if c == '(' || c == '[' || c == '{' {
                    if depth < usize::MAX {
                        depth = depth + 1;
                    }
                } else if c == ')' || c == ']' || c == '}' {
                    if depth == 0 {
                        if k > start {
                            args.push((start, k - 1));
                        }
                        return args;
                    }
                    depth = depth - 1;
                } else if c == ',' && depth == 0 {
                    if k > start {
                        args.push((start, k - 1));
                    }
                    start = k + 1;
                }
            },
            _ => {},
        }
        k = k + 1;
    }
    args
}

/// The name given to argument `idx` (from 1) of a stub: the variable of
/// `Var` or `Var :: Type`, else `Arg<idx>`.
fn arg_name(t: &[char], toks: &Vec<Token>, arg: (usize, usize), idx: u32) -> (r: Vec<char>)
    requires
        t@.len() <= u32::MAX,
        tokens_ok(t@, toks@),
        arg.0 <= arg.1 < toks@.len(),
{
    let first = toks[arg.0];
    let is_var = first.kind == TokenKind::Var && (arg.0 == arg.1 || (arg.1 - arg.0 >= 2
        && toks[arg.0 + 1].kind == TokenKind::Punct(':') && toks[arg.0 + 2].kind == TokenKind::Punct(
        ':',
    )));
    if is_var {
        proof {
            lemma_token(t@, toks@, arg.0 as int);
        }
        sub_chars(t, first.start, first.end)
    } else {
        let mut v: Vec<char> = Vec::new();
        v.push('A');
        v.push('r');
        v.push('g');
        let digits = decimal_chars(idx);
        let mut k: usize = 0;
        while k < digits.len()
            decreases digits.len() - k,
        {
            v.push(digits[k]);
            k = k + 1;
        }
        v
    }
}

fn push_all(v: &mut Vec<char>, s: &[char]) {
    let mut k: usize = 0;
    while k < s.len()
        decreases s.len() - k,
    {
        v.push(s[k]);
        k = k + 1;
    }
}

/// The `Add implementation` assist for the `-spec` at `offset`: `None` when
/// there is no spec there or a function of its name and arity is already
/// defined; else one edit inserting a stub right after the spec. With
/// `snippets`, the arguments and body are editor placeholders.
pub fn add_impl(text: &str, offset: u32, snippets: bool) -> (r: Option<Assist>)
    requires
        text@.len() <= u32::MAX,
    ensures
        r is Some ==> r->Some_0.edits@.len() == 1 && r->Some_0.edits@[0].delete.start
            == r->Some_0.edits@[0].delete.end && r->Some_0.edits@[0].delete.end <= text@.len(),
{
    let t = chars_of(text);
    let toks = tokenize(t.as_slice());
    let forms = split_forms(&toks);
    let kinds = form_kinds(t.as_slice(), &toks, &forms);
    let mut i: usize = 0;
    while i < forms.len()
        invariant
            t@ == text@,
            text@.len() <= u32::MAX,
            tokens_ok(t@, toks@),
            forms_ok(toks@, forms@),
            kinds@.len() == forms@.len(),
        decreases forms@.len() - i,
    {
        let f = forms[i];
        assert(forms@[i as int].first <= forms@[i as int].last < toks@.len());
        proof {
            lemma_token(t@, toks@, f.first as int);
            lemma_token(t@, toks@, f.last as int);
        }
        if kinds[i] == FormKind::Spec && toks[f.first].start <= offset as usize && (offset as usize)
            <= toks[f.last].end && f.last - f.first >= 3 && toks[f.first + 2].kind == TokenKind::Atom {
            return stub_for_spec(t.as_slice(), &toks, &forms, &kinds, f, snippets);
        }
        i = i + 1;
    }
    None
}

fn stub_for_spec(
    t: &[char],
    toks: &Vec<Token>,
    forms: &Vec<Form>,
    kinds: &Vec<FormKind>,
    spec: Form,
    snippets: bool,
) -> (r: Option<Assist>)
    requires
        t@.len() <= u32::MAX,
        tokens_ok(t@, toks@),
        forms_ok(toks@, forms@),
        kinds@.len() == forms@.len(),
        spec.first + 3 <= spec.last < toks@.len(),
    ensures
        r is Some ==> r->Some_0.edits@.len() == 1 && r->Some_0.edits@[0].delete.start
            == r->Some_0.edits@[0].delete.end && r->Some_0.edits@[0].delete.end <= t@.len(),
{
    let name = toks[spec.first + 2];
    let args = match find_punct(toks, spec.first + 2, spec.last, '(') {
        Some(open) => paren_args(toks, open, spec.last),
        None => Vec::new(),
    };
    let mut i: usize = 0;
    while i < forms.len()
        invariant
            tokens_ok(t@, toks@),
            forms_ok(toks@, forms@),
            kinds@.len() == forms@.len(),
            spec.first + 3 <= spec.last < toks@.len(),
        decreases forms@.len() - i,
    {
        let f = forms[i];
        assert(forms@[i as int].first <= forms@[i as int].last < toks@.len());
        if kinds[i] == FormKind::FunDecl && same_token_text(t, toks[f.first], name) {
            let fun_args = if f.first < f.last && toks[f.first + 1].kind == TokenKind::Punct('(') {
                paren_args(toks, f.first + 1, f.last)
            } else {
                Vec::new()
            };
            if fun_args.len() == args.len() {
                return None;
            }
        }
        i = i + 1;
    }
    proof {
        lemma_token(t@, toks@, spec.first + 2);
        lemma_token(t@, toks@, spec.last as int);
    }
    let mut stub: Vec<char> = Vec::new();
    stub.push('\n');
    push_all(&mut stub, sub_chars(t, name.start, name.end).as_slice());
    stub.push('(');
    let mut k: usize = 0;
    while k < args.len()
        invariant
            t@.len() <= u32::MAX,
            tokens_ok(t@, toks@),
            forall|m: int| 0 <= m < args@.len() ==> (#[trigger] args@[m]).0 <= args@[m].1 < toks@.len(),
        decreases args@.len() - k,
    {
        if k > 0 {
            stub.push(',');
            stub.push(' ');
        }
        let idx: u32 = if k < 4000000000 {
            (k + 1) as u32
        } else {
            0
        };
        assert(args@[k as int].0 <= args@[k as int].1 < toks@.len());
        let arg = arg_name(t, toks, args[k], idx);
        if snippets {
            stub.push('$');
            stub.push('{');
            push_all(&mut stub, decimal_chars(idx).as_slice());
            stub.push(':');
            push_all(&mut stub, arg.as_slice());
            stub.push('}');
        } else {
            push_all(&mut stub, arg.as_slice());
        }
        k = k + 1;
    }
    push_all(&mut stub, &[')', ' ', '-', '>', '\n', ' ', ' ']);
    let body = ['e', 'r', 'r', 'o', 'r', '(', '"', 'n', 'o', 't', ' ', 'i', 'm', 'p', 'l', 'e', 'm', 'e', 'n', 't', 'e', 'd', '"', ')', '.'];
    if snippets {
        let n: u32 = if args.len() < 4000000000 {
            (args.len() + 1) as u32
        } else {
            0
        };
        stub.push('$');
        stub.push('{');
        push_all(&mut stub, decimal_chars(n).as_slice());
        stub.push(':');
        push_all(&mut stub, &body);
        stub.push('}');
    } else {
        push_all(&mut stub, &body);
    }
    stub.push('\n');
    let end = toks[spec.last].end as u32;
    let mut edits: Vec<TextEdit> = Vec::new();
    edits.push(TextEdit { delete: TextRange { start: end, end }, insert: string_of(stub.as_slice()) });
    Some(
        Assist {
            id: String::from_str("add_impl"),
            label: String::from_str("Add implementation"),
            target: TextRange { start: name.start as u32, end: name.end as u32 },
            edits,
        },
    )
}

} // verus!
