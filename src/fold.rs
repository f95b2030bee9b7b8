//! Traversal over a lowered body, computing a result.
//!
//! A walk visits a node, then its sub-nodes in source order. The callbacks
//! run on entry (`TopDown`), on exit (`BottomUp`) or on both (`Both`). The
//! sequence of callback contexts that a walk produces is given by
//! `expr_visits`, `pat_visits` and `term_visits`; the result of a walk is the
//! accumulator threaded through the callbacks along that sequence.

use vstd::prelude::*;

use crate::children::expr_children_vec;
use crate::children::pat_children_vec;
use crate::children::term_children_vec;
use crate::hir::expr_children;
use crate::hir::pat_children;
use crate::hir::term_children;
use crate::hir::Body;
use crate::hir::Child;
use crate::hir::Expr;
use crate::hir::ExprId;
use crate::hir::Pat;
use crate::hir::PatId;
use crate::hir::Term;
use crate::hir::TermId;

verus! {

#[derive(Debug, Clone, Copy, PartialEq, Eq)]
pub enum On {
    Entry,
    Exit,
}

#[derive(Debug, Clone, Copy, PartialEq, Eq)]
pub struct ExprCallBackCtx {
    pub on: On,
    pub in_macro: Option<ExprId>,
    pub expr_id: ExprId,
}

#[derive(Debug, Clone, Copy, PartialEq, Eq)]
pub struct PatCallBackCtx {
    pub on: On,
    pub in_macro: Option<ExprId>,
    pub pat_id: PatId,
}

#[derive(Debug, Clone, Copy, PartialEq, Eq)]
pub struct TermCallBackCtx {
    pub on: On,
    pub in_macro: Option<ExprId>,
    pub term_id: TermId,
}

/// One callback invocation of an expression or pattern walk.
#[derive(Debug, Clone, Copy, PartialEq, Eq)]
pub enum Visit {
    Expr(ExprCallBackCtx),
    Pat(PatCallBackCtx),
}

#[derive(Debug, Clone, Copy, PartialEq, Eq)]
pub enum Strategy {
    TopDown,
    BottomUp,
    Both,
}

/// The view of a body that a walk sees: `Body` looks through macro calls to
/// their expansion, `UnexpandedIndex` shows the macro-call nodes themselves.
#[derive(Debug)]
pub enum FoldBody<'a> {
    Body(&'a Body),
    UnexpandedIndex(&'a Body),
}

pub fn noop_expr_callback<T>(acc: T, _ctx: ExprCallBackCtx) -> (r: T)
    ensures
        r == acc,
{
    acc
}

pub fn noop_pat_callback<T>(acc: T, _ctx: PatCallBackCtx) -> (r: T)
    ensures
        r == acc,
{
    acc
}

pub fn noop_term_callback<T>(acc: T, _ctx: TermCallBackCtx) -> (r: T)
    ensures
        r == acc,
{
    acc
}

impl<'a> FoldBody<'a> {
    pub open spec fn body(self) -> Body {
        match self {
            FoldBody::Body(b) => *b,
            FoldBody::UnexpandedIndex(b) => *b,
        }
    }

    /// The node that the walk sees at `id`.
    pub open spec fn expr_at(self, id: ExprId) -> Expr {
        match self {
            FoldBody::Body(b) => match b.exprs()[id.0 as int] {
                Expr::MacroCall { expansion, args: _ } => b.exprs()[expansion.0 as int],
                e => e,
            },
            FoldBody::UnexpandedIndex(b) => b.exprs()[id.0 as int],
        }
    }

    pub fn expr(&self, id: ExprId) -> (r: &Expr)
        requires
            self.body().wf(),
            self.body().valid_expr(id),
        ensures
            *r == self.expr_at(id),
    {
        match self {
            FoldBody::Body(b) => {
                let e = b.expr(id);
                match e {
                    Expr::MacroCall { expansion, args: _ } => {
                        proof {
                            b.lemma_wf_expr(id);
                        }
                        b.expr(*expansion)
                    },
                    _ => e,
                }
            },
            FoldBody::UnexpandedIndex(b) => b.expr(id),
        }
    }

    pub fn pat(&self, id: PatId) -> (r: &Pat)
        requires
            self.body().valid_pat(id),
        ensures
            *r == self.body().pats()[id.0 as int],
    {
        match self {
            FoldBody::Body(b) => b.pat(id),
            FoldBody::UnexpandedIndex(b) => b.pat(id),
        }
    }

    pub fn term(&self, id: TermId) -> (r: &Term)
        requires
            self.body().valid_term(id),
        ensures
            *r == self.body().terms()[id.0 as int],
    {
        match self {
            FoldBody::Body(b) => b.term(id),
            FoldBody::UnexpandedIndex(b) => b.term(id),
        }
    }

    /// Every node the walk sees at a valid id refers only to lower ranks.
    pub proof fn lemma_expr_at_ok(self, id: ExprId)
        requires
            self.body().wf(),
            self.body().valid_expr(id),
        ensures
            self.body().expr_node_ok(self.expr_at(id), self.body().expr_rank(id) as int),
    {
        let b = self.body();
        b.lemma_wf_expr(id);
        match self {
            FoldBody::Body(_) => {
                match b.exprs()[id.0 as int] {
                    Expr::MacroCall { expansion, args: _ } => {
                        b.lemma_wf_expr(expansion);
                        let e = b.exprs()[expansion.0 as int];
                        let cs = expr_children(e);
                        assert forall|k: int| 0 <= k < cs.len() implies match #[trigger] b.child_rank(
                            cs[k],
                        ) {
                            Some(r) => r < b.expr_rank(id) as int,
                            None => false,
                        } by {
                            assert(b.child_rank(cs[k]) is Some);
                        }
                    },
                    _ => {},
                }
            },
            FoldBody::UnexpandedIndex(_) => {},
        }
    }
}

// ---------------------------------------------------------------------
// The visits of a walk.

/// The outermost open macro frame of a stack of frames.
pub open spec fn in_macro_of(stack: Seq<ExprId>) -> Option<ExprId> {
    if stack.len() > 0 {
        Some(stack[0])
    } else {
        None
    }
}

/// The outermost frame after entering the expansion of macro call `id`.
pub open spec fn enter_macro(m: Option<ExprId>, id: ExprId) -> Option<ExprId> {
    match m {
        Some(outer) => Some(outer),
        None => Some(id),
    }
}

pub open spec fn runs_on_entry(s: Strategy) -> bool {
    s != Strategy::BottomUp
}

pub open spec fn runs_on_exit(s: Strategy) -> bool {
    s != Strategy::TopDown
}

pub open spec fn expr_ctx(on: On, m: Option<ExprId>, id: ExprId) -> ExprCallBackCtx {
    ExprCallBackCtx { on, in_macro: m, expr_id: id }
}

pub open spec fn pat_ctx(on: On, m: Option<ExprId>, id: PatId) -> PatCallBackCtx {
    PatCallBackCtx { on, in_macro: m, pat_id: id }
}

pub open spec fn framed<A>(s: Strategy, entry: A, inner: Seq<A>, exit: A) -> Seq<A> {
    (if runs_on_entry(s) {
        seq![entry]
    } else {
        Seq::empty()
    }) + inner + (if runs_on_exit(s) {
        seq![exit]
    } else {
        Seq::empty()
    })
}

/// The callback invocations of a walk from expression `id`, with `m` the
/// outermost macro frame open when the walk reaches it.
pub open spec fn expr_visits(fb: FoldBody, s: Strategy, id: ExprId, m: Option<ExprId>) -> Seq<
    Visit,
>
    decreases fb.body().expr_rank(id), 1nat, 0nat,
{
    if !fb.body().valid_expr(id) {
        Seq::empty()
    } else {
        let inner = match fb.expr_at(id) {
            Expr::MacroCall { expansion, args: _ } => if fb.body().valid_expr(expansion)
                && fb.body().expr_rank(expansion) < fb.body().expr_rank(id) {
                expr_visits(fb, s, expansion, enter_macro(m, id))
            } else {
                Seq::empty()
            },
            e => children_visits(fb, s, expr_children(e), m, fb.body().expr_rank(id)),
        };
        framed(
            s,
            Visit::Expr(expr_ctx(On::Entry, m, id)),
            inner,
            Visit::Expr(expr_ctx(On::Exit, m, id)),
        )
    }
}

/// The callback invocations of a walk from pattern `id`.
pub open spec fn pat_visits(fb: FoldBody, s: Strategy, id: PatId, m: Option<ExprId>) -> Seq<Visit>
    decreases fb.body().pat_rank(id), 1nat, 0nat,
{
    if !fb.body().valid_pat(id) {
        Seq::empty()
    } else {
        let inner = children_visits(
            fb,
            s,
            pat_children(fb.body().pats()[id.0 as int]),
            m,
            fb.body().pat_rank(id),
        );
        framed(
            s,
            Visit::Pat(pat_ctx(On::Entry, m, id)),
            inner,
            Visit::Pat(pat_ctx(On::Exit, m, id)),
        )
    }
}

/// The callback invocations of walks from each of `cs` in turn; children
/// that do not rank below `bound` are not walked.
pub open spec fn children_visits(
    fb: FoldBody,
    s: Strategy,
    cs: Seq<Child>,
    m: Option<ExprId>,
    bound: nat,
) -> Seq<Visit>
    decreases bound, 0nat, cs.len(),
{
    if cs.len() == 0 {
        Seq::empty()
    } else {
        children_visits(fb, s, cs.drop_last(), m, bound) + match cs.last() {
            Child::Expr(i) => if fb.body().valid_expr(i) && fb.body().expr_rank(i) < bound {
                expr_visits(fb, s, i, m)
            } else {
                Seq::empty()
            },
            Child::Pat(i) => if fb.body().valid_pat(i) && fb.body().pat_rank(i) < bound {
                pat_visits(fb, s, i, m)
            } else {
                Seq::empty()
            },
        }
    }
}

pub open spec fn term_ctx(on: On, id: TermId) -> TermCallBackCtx {
    TermCallBackCtx { on, in_macro: None, term_id: id }
}

/// The callback invocations of a walk from term `id`.
pub open spec fn term_visits(fb: FoldBody, s: Strategy, id: TermId) -> Seq<TermCallBackCtx>
    decreases fb.body().term_rank(id), 1nat, 0nat,
{
    if !fb.body().valid_term(id) {
        Seq::empty()
    } else {
        framed(
            s,
            term_ctx(On::Entry, id),
            terms_visits(
                fb,
                s,
                term_children(fb.body().terms()[id.0 as int]),
                fb.body().term_rank(id),
            ),
            term_ctx(On::Exit, id),
        )
    }
}

pub open spec fn terms_visits(fb: FoldBody, s: Strategy, ts: Seq<TermId>, bound: nat) -> Seq<
    TermCallBackCtx,
>
    decreases bound, 0nat, ts.len(),
{
    if ts.len() == 0 {
        Seq::empty()
    } else {
        terms_visits(fb, s, ts.drop_last(), bound) + if fb.body().valid_term(ts.last())
            && fb.body().term_rank(ts.last()) < bound {
            term_visits(fb, s, ts.last())
        } else {
            Seq::empty()
        }
    }
}

// ---------------------------------------------------------------------
// Accumulating along the visits.

pub open spec fn visit_ensures<T, FE, FP>(fe: FE, fp: FP, acc: T, v: Visit, r: T) -> bool where
    FE: Fn(T, ExprCallBackCtx) -> T,
    FP: Fn(T, PatCallBackCtx) -> T,
 {
    match v {
        Visit::Expr(c) => call_ensures(fe, (acc, c), r),
        Visit::Pat(c) => call_ensures(fp, (acc, c), r),
    }
}

/// `accs` holds the accumulator before each visit of `vs` and after the last.
pub open spec fn chain<T, FE, FP>(fe: FE, fp: FP, vs: Seq<Visit>, accs: Seq<T>) -> bool where
    FE: Fn(T, ExprCallBackCtx) -> T,
    FP: Fn(T, PatCallBackCtx) -> T,
 {
    &&& accs.len() == vs.len() + 1
    &&& forall|k: int|
        0 <= k < vs.len() ==> #[trigger] visit_ensures(fe, fp, accs[k], vs[k], accs[k + 1])
}

/// `r` is a result of calling the callbacks along `vs`, starting from `init`.
pub open spec fn folds_to<T, FE, FP>(fe: FE, fp: FP, init: T, vs: Seq<Visit>, r: T) -> bool where
    FE: Fn(T, ExprCallBackCtx) -> T,
    FP: Fn(T, PatCallBackCtx) -> T,
 {
    exists|accs: Seq<T>| #[trigger] chain(fe, fp, vs, accs) && accs[0] == init && accs.last() == r
}

/// `accs` holds the accumulator before each visit of `vs` and after the last.
pub open spec fn term_chain<T, FT>(ft: FT, vs: Seq<TermCallBackCtx>, accs: Seq<T>) -> bool where
    FT: Fn(T, TermCallBackCtx) -> T,
 {
    &&& accs.len() == vs.len() + 1
    &&& forall|k: int| 0 <= k < vs.len() ==> #[trigger] call_ensures(ft, (accs[k], vs[k]), accs[k + 1])
}

/// `r` is a result of calling `ft` along `vs`, starting from `init`.
pub open spec fn term_folds_to<T, FT>(ft: FT, init: T, vs: Seq<TermCallBackCtx>, r: T) -> bool where
    FT: Fn(T, TermCallBackCtx) -> T,
 {
    exists|accs: Seq<T>| #[trigger] term_chain(ft, vs, accs) && accs[0] == init && accs.last() == r
}

pub proof fn lemma_folds_to_empty<T, FE, FP>(fe: FE, fp: FP, init: T) where
    FE: Fn(T, ExprCallBackCtx) -> T,
    FP: Fn(T, PatCallBackCtx) -> T,

    ensures
        folds_to(fe, fp, init, Seq::empty(), init),
{
    assert(chain(fe, fp, Seq::empty(), seq![init]));
}

pub proof fn lemma_folds_to_push<T, FE, FP>(
    fe: FE,
    fp: FP,
    init: T,
    vs: Seq<Visit>,
    mid: T,
    v: Visit,
    r: T,
) where FE: Fn(T, ExprCallBackCtx) -> T, FP: Fn(T, PatCallBackCtx) -> T
    requires
        folds_to(fe, fp, init, vs, mid),
        visit_ensures(fe, fp, mid, v, r),
    ensures
        folds_to(fe, fp, init, vs.push(v), r),
{
    let accs = choose|accs: Seq<T>| #[trigger] chain(fe, fp, vs, accs) && accs[0] == init && accs.last() == mid;
    let accs2 = accs.push(r);
    let vs2 = vs.push(v);
    assert forall|k: int| 0 <= k < vs2.len() implies #[trigger] visit_ensures(fe, fp, accs2[k], vs2[k], accs2[k + 1]) by {
        if k < vs.len() {
            assert(visit_ensures(fe, fp, accs[k], vs[k], accs[k + 1]));
        }
    }
    assert(chain(fe, fp, vs2, accs2));
}

pub proof fn lemma_folds_to_concat<T, FE, FP>(
    fe: FE,
    fp: FP,
    init: T,
    a: Seq<Visit>,
    mid: T,
    b: Seq<Visit>,
    r: T,
) where FE: Fn(T, ExprCallBackCtx) -> T, FP: Fn(T, PatCallBackCtx) -> T
    requires
        folds_to(fe, fp, init, a, mid),
        folds_to(fe, fp, mid, b, r),
    ensures
        folds_to(fe, fp, init, a + b, r),
{
    let xa = choose|accs: Seq<T>| #[trigger] chain(fe, fp, a, accs) && accs[0] == init && accs.last() == mid;
    let xb = choose|accs: Seq<T>| #[trigger] chain(fe, fp, b, accs) && accs[0] == mid && accs.last() == r;
    let xs = xa + xb.drop_first();
    let vs = a + b;
    assert forall|k: int| 0 <= k < vs.len() implies #[trigger] visit_ensures(fe, fp, xs[k], vs[k], xs[k + 1]) by {
        if k < a.len() {
            assert(visit_ensures(fe, fp, xa[k], a[k], xa[k + 1]));
        } else {
            let j = k - a.len();
            assert(visit_ensures(fe, fp, xb[j], b[j], xb[j + 1]));
        }
    }
    assert(chain(fe, fp, vs, xs));
}

pub proof fn lemma_term_folds_to_empty<T, FT>(ft: FT, init: T) where
    FT: Fn(T, TermCallBackCtx) -> T,

    ensures
        term_folds_to(ft, init, Seq::empty(), init),
{
    assert(term_chain(ft, Seq::empty(), seq![init]));
}

pub proof fn lemma_term_folds_to_push<T, FT>(
    ft: FT,
    init: T,
    vs: Seq<TermCallBackCtx>,
    mid: T,
    v: TermCallBackCtx,
    r: T,
) where FT: Fn(T, TermCallBackCtx) -> T
    requires
        term_folds_to(ft, init, vs, mid),
        call_ensures(ft, (mid, v), r),
    ensures
        term_folds_to(ft, init, vs.push(v), r),
{
    let accs = choose|accs: Seq<T>| #[trigger] term_chain(ft, vs, accs) && accs[0] == init && accs.last() == mid;
    let accs2 = accs.push(r);
    let vs2 = vs.push(v);
    assert forall|k: int| 0 <= k < vs2.len() implies #[trigger] call_ensures(ft, (accs2[k], vs2[k]), accs2[k + 1]) by {
        if k < vs.len() {
            assert(call_ensures(ft, (accs[k], vs[k]), accs[k + 1]));
        }
    }
    assert(term_chain(ft, vs2, accs2));
}

pub proof fn lemma_term_folds_to_concat<T, FT>(
    ft: FT,
    init: T,
    a: Seq<TermCallBackCtx>,
    mid: T,
    b: Seq<TermCallBackCtx>,
    r: T,
) where FT: Fn(T, TermCallBackCtx) -> T
    requires
        term_folds_to(ft, init, a, mid),
        term_folds_to(ft, mid, b, r),
    ensures
        term_folds_to(ft, init, a + b, r),
{
    let xa = choose|accs: Seq<T>| #[trigger] term_chain(ft, a, accs) && accs[0] == init && accs.last() == mid;
    let xb = choose|accs: Seq<T>| #[trigger] term_chain(ft, b, accs) && accs[0] == mid && accs.last() == r;
    let xs = xa + xb.drop_first();
    let vs = a + b;
    assert forall|k: int| 0 <= k < vs.len() implies #[trigger] call_ensures(ft, (xs[k], vs[k]), xs[k + 1]) by {
        if k < a.len() {
            assert(call_ensures(ft, (xa[k], a[k]), xa[k + 1]));
        } else {
            let j = k - a.len();
            assert(call_ensures(ft, (xb[j], b[j]), xb[j + 1]));
        }
    }
    assert(term_chain(ft, vs, xs));
}

// ---------------------------------------------------------------------
// How many callbacks a walk makes.

/// A walk from an expression makes as many callback invocations top-down as
/// bottom-up, and with `Both` twice that number.
pub proof fn lemma_expr_visit_counts(fb: FoldBody, id: ExprId, m: Option<ExprId>)
    ensures
        expr_visits(fb, Strategy::TopDown, id, m).len() == expr_visits(
            fb,
            Strategy::BottomUp,
            id,
            m,
        ).len(),
        expr_visits(fb, Strategy::Both, id, m).len() == 2 * expr_visits(
            fb,
            Strategy::TopDown,
            id,
            m,
        ).len(),
    decreases fb.body().expr_rank(id), 1nat, 0nat,
{
    if fb.body().valid_expr(id) {
        match fb.expr_at(id) {
            Expr::MacroCall { expansion, args: _ } => {
                if fb.body().valid_expr(expansion) && fb.body().expr_rank(expansion)
                    < fb.body().expr_rank(id) {
                    lemma_expr_visit_counts(fb, expansion, enter_macro(m, id));
                }
            },
            e => {
                lemma_children_visit_counts(fb, expr_children(e), m, fb.body().expr_rank(id));
            },
        }
    }
}

/// A walk from a pattern makes as many callback invocations top-down as
/// bottom-up, and with `Both` twice that number.
pub proof fn lemma_pat_visit_counts(fb: FoldBody, id: PatId, m: Option<ExprId>)
    ensures
        pat_visits(fb, Strategy::TopDown, id, m).len() == pat_visits(
            fb,
            Strategy::BottomUp,
            id,
            m,
        ).len(),
        pat_visits(fb, Strategy::Both, id, m).len() == 2 * pat_visits(
            fb,
            Strategy::TopDown,
            id,
            m,
        ).len(),
    decreases fb.body().pat_rank(id), 1nat, 0nat,
{
    if fb.body().valid_pat(id) {
        lemma_children_visit_counts(
            fb,
            pat_children(fb.body().pats()[id.0 as int]),
            m,
            fb.body().pat_rank(id),
        );
    }
}

pub proof fn lemma_children_visit_counts(
    fb: FoldBody,
    cs: Seq<Child>,
    m: Option<ExprId>,
    bound: nat,
)
    ensures
        children_visits(fb, Strategy::TopDown, cs, m, bound).len() == children_visits(
            fb,
            Strategy::BottomUp,
            cs,
            m,
            bound,
        ).len(),
        children_visits(fb, Strategy::Both, cs, m, bound).len() == 2 * children_visits(
            fb,
            Strategy::TopDown,
            cs,
            m,
            bound,
        ).len(),
    decreases bound, 0nat, cs.len(),
{
    if cs.len() > 0 {
        lemma_children_visit_counts(fb, cs.drop_last(), m, bound);
        match cs.last() {
            Child::Expr(i) => {
                if fb.body().valid_expr(i) && fb.body().expr_rank(i) < bound {
                    lemma_expr_visit_counts(fb, i, m);
                }
            },
            Child::Pat(i) => {
                if fb.body().valid_pat(i) && fb.body().pat_rank(i) < bound {
                    lemma_pat_visit_counts(fb, i, m);
                }
            },
        }
    }
}

/// A walk from a term makes as many callback invocations top-down as
/// bottom-up, and with `Both` twice that number.
pub proof fn lemma_term_visit_counts(fb: FoldBody, id: TermId)
    ensures
        term_visits(fb, Strategy::TopDown, id).len() == term_visits(
            fb,
            Strategy::BottomUp,
            id,
        ).len(),
        term_visits(fb, Strategy::Both, id).len() == 2 * term_visits(
            fb,
            Strategy::TopDown,
            id,
        ).len(),
    decreases fb.body().term_rank(id), 1nat, 0nat,
{
    if fb.body().valid_term(id) {
        lemma_terms_visit_counts(
            fb,
            term_children(fb.body().terms()[id.0 as int]),
            fb.body().term_rank(id),
        );
    }
}

pub proof fn lemma_terms_visit_counts(fb: FoldBody, ts: Seq<TermId>, bound: nat)
    ensures
        terms_visits(fb, Strategy::TopDown, ts, bound).len() == terms_visits(
            fb,
            Strategy::BottomUp,
            ts,
            bound,
        ).len(),
        terms_visits(fb, Strategy::Both, ts, bound).len() == 2 * terms_visits(
            fb,
            Strategy::TopDown,
            ts,
            bound,
        ).len(),
    decreases bound, 0nat, ts.len(),
{
    if ts.len() > 0 {
        lemma_terms_visit_counts(fb, ts.drop_last(), bound);
        if fb.body().valid_term(ts.last()) && fb.body().term_rank(ts.last()) < bound {
            lemma_term_visit_counts(fb, ts.last());
        }
    }
}

// ---------------------------------------------------------------------
// The walk itself.

pub struct FoldCtx<'a> {
    body: &'a FoldBody<'a>,
    strategy: Strategy,
    macro_stack: Vec<ExprId>,
}

impl<'a> FoldCtx<'a> {
    pub closed spec fn fold_body(&self) -> FoldBody<'a> {
        *self.body
    }

    pub closed spec fn strategy(&self) -> Strategy {
        self.strategy
    }

    pub closed spec fn stack(&self) -> Seq<ExprId> {
        self.macro_stack@
    }

    /// Walks from expression `expr_id` of `body`, looking through macro
    /// calls to their expansions.
    pub fn fold_expr<T, FE, FP>(
        body: &'a Body,
        strategy: Strategy,
        expr_id: ExprId,
        initial: T,
        for_expr: FE,
        for_pat: FP,
    ) -> (r: T) where FE: Fn(T, ExprCallBackCtx) -> T, FP: Fn(T, PatCallBackCtx) -> T
        requires
            body.wf(),
            body.valid_expr(expr_id),
            forall|acc: T, c: ExprCallBackCtx| call_requires(for_expr, (acc, c)),
            forall|acc: T, c: PatCallBackCtx| call_requires(for_pat, (acc, c)),
        ensures
            folds_to(
                for_expr,
                for_pat,
                initial,
                expr_visits(FoldBody::Body(body), strategy, expr_id, None),
                r,
            ),
    {
        let fb = FoldBody::Body(body);
        let mut ctx = FoldCtx { body: &fb, strategy, macro_stack: Vec::new() };
        ctx.do_fold_expr(expr_id, initial, &for_expr, &for_pat)
    }

    /// Walks from pattern `pat_id` of `body`.
    pub fn fold_pat<T, FE, FP>(
        body: &'a Body,
        strategy: Strategy,
        pat_id: PatId,
        initial: T,
        for_expr: FE,
        for_pat: FP,
    ) -> (r: T) where FE: Fn(T, ExprCallBackCtx) -> T, FP: Fn(T, PatCallBackCtx) -> T
        requires
            body.wf(),
            body.valid_pat(pat_id),
            forall|acc: T, c: ExprCallBackCtx| call_requires(for_expr, (acc, c)),
            forall|acc: T, c: PatCallBackCtx| call_requires(for_pat, (acc, c)),
        ensures
            folds_to(
                for_expr,
                for_pat,
                initial,
                pat_visits(FoldBody::Body(body), strategy, pat_id, None),
                r,
            ),
    {
        let fb = FoldBody::Body(body);
        let mut ctx = FoldCtx { body: &fb, strategy, macro_stack: Vec::new() };
        ctx.do_fold_pat(pat_id, initial, &for_expr, &for_pat)
    }

    /// Walks from expression `expr_id` in the given view of a body.
    pub fn fold_expr_foldbody<T, FE, FP>(
        body: &'a FoldBody<'a>,
        strategy: Strategy,
        expr_id: ExprId,
        initial: T,
        for_expr: FE,
        for_pat: FP,
    ) -> (r: T) where FE: Fn(T, ExprCallBackCtx) -> T, FP: Fn(T, PatCallBackCtx) -> T
        requires
            body.body().wf(),
            body.body().valid_expr(expr_id),
            forall|acc: T, c: ExprCallBackCtx| call_requires(for_expr, (acc, c)),
            forall|acc: T, c: PatCallBackCtx| call_requires(for_pat, (acc, c)),
        ensures
            folds_to(for_expr, for_pat, initial, expr_visits(*body, strategy, expr_id, None), r),
    {
        let mut ctx = FoldCtx { body, strategy, macro_stack: Vec::new() };
        ctx.do_fold_expr(expr_id, initial, &for_expr, &for_pat)
    }

    /// Walks from term `term_id` of `body`.
    pub fn fold_term<T, FT>(
        body: &'a Body,
        strategy: Strategy,
        term_id: TermId,
        initial: T,
        for_term: FT,
    ) -> (r: T) where FT: Fn(T, TermCallBackCtx) -> T
        requires
            body.wf(),
            body.valid_term(term_id),
            forall|acc: T, c: TermCallBackCtx| call_requires(for_term, (acc, c)),
        ensures
            term_folds_to(for_term, initial, term_visits(FoldBody::Body(body), strategy, term_id), r),
    {
        let fb = FoldBody::Body(body);
        let mut ctx = FoldCtx { body: &fb, strategy, macro_stack: Vec::new() };
        ctx.do_fold_term(term_id, initial, &for_term)
    }

    fn in_macro(&self) -> (r: Option<ExprId>)
        ensures
            r == in_macro_of(self.macro_stack@),
    {
        if self.macro_stack.len() > 0 {
            Some(self.macro_stack[0])
        } else {
            None
        }
    }

    fn do_fold_expr<T, FE, FP>(&mut self, expr_id: ExprId, initial: T, fe: &FE, fp: &FP) -> (r: T) where
        FE: Fn(T, ExprCallBackCtx) -> T,
        FP: Fn(T, PatCallBackCtx) -> T,

        requires
            old(self).body.body().wf(),
            old(self).body.body().valid_expr(expr_id),
            forall|acc: T, c: ExprCallBackCtx| call_requires(*fe, (acc, c)),
            forall|acc: T, c: PatCallBackCtx| call_requires(*fp, (acc, c)),
        ensures
            final(self).body == old(self).body,
            final(self).strategy == old(self).strategy,
            final(self).macro_stack@ == old(self).macro_stack@,
            folds_to(
                *fe,
                *fp,
                initial,
                expr_visits(
                    *old(self).body,
                    old(self).strategy,
                    expr_id,
                    in_macro_of(old(self).macro_stack@),
                ),
                r,
            ),
        decreases old(self).body.body().expr_rank(expr_id), 1nat, 0nat,
    {
        let ghost fb = *self.body;
        let ghost m = in_macro_of(self.macro_stack@);
        let ghost s = self.strategy;
        let body = self.body;
        let expr = body.expr(expr_id);
        proof {
            fb.lemma_expr_at_ok(expr_id);
        }
        let ctx = ExprCallBackCtx { on: On::Entry, in_macro: self.in_macro(), expr_id };
        let ghost entry: Seq<Visit> = if runs_on_entry(s) {
            seq![Visit::Expr(ctx)]
        } else {
            Seq::empty()
        };
        let acc = match self.strategy {
            Strategy::TopDown | Strategy::Both => fe(initial, ctx),
            _ => initial,
        };
        proof {
            lemma_folds_to_empty(*fe, *fp, initial);
            if runs_on_entry(s) {
                lemma_folds_to_push(*fe, *fp, initial, Seq::empty(), initial, Visit::Expr(ctx), acc);
                assert(Seq::<Visit>::empty().push(Visit::Expr(ctx)) =~= entry);
            }
        }
        let ghost inner: Seq<Visit> = match fb.expr_at(expr_id) {
            Expr::MacroCall { expansion, args: _ } => expr_visits(
                fb,
                s,
                expansion,
                enter_macro(m, expr_id),
            ),
            e => children_visits(fb, s, expr_children(e), m, fb.body().expr_rank(expr_id)),
        };
        let r = match expr {
            Expr::MacroCall { expansion, args: _ } => {
                let ghost before = self.macro_stack@;
                self.macro_stack.push(expr_id);
                assert(in_macro_of(self.macro_stack@) == enter_macro(m, expr_id));
                let r = self.do_fold_expr(*expansion, acc, fe, fp);
                self.macro_stack.pop();
                assert(self.macro_stack@ =~= before);
                r
            },
            _ => {
                let cs = expr_children_vec(expr);
                self.fold_children(&cs, acc, fe, fp, Ghost(fb.body().expr_rank(expr_id)))
            },
        };
        proof {
            lemma_folds_to_concat(*fe, *fp, initial, entry, acc, inner, r);
        }
        let ctx = ExprCallBackCtx { on: On::Exit, in_macro: self.in_macro(), expr_id };
        let out = match self.strategy {
            Strategy::BottomUp | Strategy::Both => fe(r, ctx),
            _ => r,
        };
        proof {
            let exit: Seq<Visit> = if runs_on_exit(s) {
                seq![Visit::Expr(ctx)]
            } else {
                Seq::empty()
            };
            if runs_on_exit(s) {
                lemma_folds_to_push(*fe, *fp, initial, entry + inner, r, Visit::Expr(ctx), out);
                assert((entry + inner).push(Visit::Expr(ctx)) =~= entry + inner + exit);
            } else {
                assert(entry + inner + exit =~= entry + inner);
            }
        }
        out
    }

    fn do_fold_pat<T, FE, FP>(&mut self, pat_id: PatId, initial: T, fe: &FE, fp: &FP) -> (r: T) where
        FE: Fn(T, ExprCallBackCtx) -> T,
        FP: Fn(T, PatCallBackCtx) -> T,

        requires
            old(self).body.body().wf(),
            old(self).body.body().valid_pat(pat_id),
            forall|acc: T, c: ExprCallBackCtx| call_requires(*fe, (acc, c)),
            forall|acc: T, c: PatCallBackCtx| call_requires(*fp, (acc, c)),
        ensures
            final(self).body == old(self).body,
            final(self).strategy == old(self).strategy,
            final(self).macro_stack@ == old(self).macro_stack@,
            folds_to(
                *fe,
                *fp,
                initial,
                pat_visits(
                    *old(self).body,
                    old(self).strategy,
                    pat_id,
                    in_macro_of(old(self).macro_stack@),
                ),
                r,
            ),
        decreases old(self).body.body().pat_rank(pat_id), 1nat, 0nat,
    {
        let ghost fb = *self.body;
        let ghost m = in_macro_of(self.macro_stack@);
        let ghost s = self.strategy;
        let body = self.body;
        let pat = body.pat(pat_id);
        proof {
            fb.body().lemma_wf_pat(pat_id);
        }
        let ctx = PatCallBackCtx { on: On::Entry, in_macro: self.in_macro(), pat_id };
        let ghost entry: Seq<Visit> = if runs_on_entry(s) {
            seq![Visit::Pat(ctx)]
        } else {
            Seq::empty()
        };
        let acc = match self.strategy {
            Strategy::TopDown | Strategy::Both => fp(initial, ctx),
            _ => initial,
        };
        proof {
            lemma_folds_to_empty(*fe, *fp, initial);
            if runs_on_entry(s) {
                lemma_folds_to_push(*fe, *fp, initial, Seq::empty(), initial, Visit::Pat(ctx), acc);
                assert(Seq::<Visit>::empty().push(Visit::Pat(ctx)) =~= entry);
            }
        }
        let ghost inner = children_visits(
            fb,
            s,
            pat_children(*pat),
            m,
            fb.body().pat_rank(pat_id),
        );
        let cs = pat_children_vec(pat);
        let r = self.fold_children(&cs, acc, fe, fp, Ghost(fb.body().pat_rank(pat_id)));
        proof {
            lemma_folds_to_concat(*fe, *fp, initial, entry, acc, inner, r);
        }
        let ctx = PatCallBackCtx { on: On::Exit, in_macro: self.in_macro(), pat_id };
        let out = match self.strategy {
            Strategy::BottomUp | Strategy::Both => fp(r, ctx),
            _ => r,
        };
        proof {
            let exit: Seq<Visit> = if runs_on_exit(s) {
                seq![Visit::Pat(ctx)]
            } else {
                Seq::empty()
            };
            if runs_on_exit(s) {
                lemma_folds_to_push(*fe, *fp, initial, entry + inner, r, Visit::Pat(ctx), out);
                assert((entry + inner).push(Visit::Pat(ctx)) =~= entry + inner + exit);
            } else {
                assert(entry + inner + exit =~= entry + inner);
            }
        }
        out
    }

    /// Walks each of `cs` in turn.
    fn fold_children<T, FE, FP>(
        &mut self,
        cs: &Vec<Child>,
        initial: T,
        fe: &FE,
        fp: &FP,
        Ghost(bound): Ghost<nat>,
    ) -> (r: T) where FE: Fn(T, ExprCallBackCtx) -> T, FP: Fn(T, PatCallBackCtx) -> T
        requires
            old(self).body.body().wf(),
            old(self).body.body().children_below(cs@, bound as int),
            forall|acc: T, c: ExprCallBackCtx| call_requires(*fe, (acc, c)),
            forall|acc: T, c: PatCallBackCtx| call_requires(*fp, (acc, c)),
        ensures
            final(self).body == old(self).body,
            final(self).strategy == old(self).strategy,
            final(self).macro_stack@ == old(self).macro_stack@,
            folds_to(
                *fe,
                *fp,
                initial,
                children_visits(
                    *old(self).body,
                    old(self).strategy,
                    cs@,
                    in_macro_of(old(self).macro_stack@),
                    bound,
                ),
                r,
            ),
        decreases bound, 0nat, 0nat,
    {
        let ghost fb = *self.body;
        let ghost m = in_macro_of(self.macro_stack@);
        let ghost s = self.strategy;
        let mut acc = initial;
        let mut i: usize = 0;
        proof {
            lemma_folds_to_empty(*fe, *fp, initial);
            assert(cs@.subrange(0, 0) =~= Seq::<Child>::empty());
        }
        while i < cs.len()
            invariant
                i <= cs.len(),
                self.body == old(self).body,
                self.strategy == old(self).strategy,
                self.macro_stack@ == old(self).macro_stack@,
                fb == *self.body,
                m == in_macro_of(self.macro_stack@),
                s == self.strategy,
                fb.body().wf(),
                fb.body().children_below(cs@, bound as int),
                forall|acc: T, c: ExprCallBackCtx| call_requires(*fe, (acc, c)),
                forall|acc: T, c: PatCallBackCtx| call_requires(*fp, (acc, c)),
                folds_to(
                    *fe,
                    *fp,
                    initial,
                    children_visits(fb, s, cs@.subrange(0, i as int), m, bound),
                    acc,
                ),
            decreases cs.len() - i,
        {
            let ghost prefix = cs@.subrange(0, i as int);
            let ghost next = cs@.subrange(0, i + 1);
            assert(next.drop_last() =~= prefix);
            assert(next.last() == cs@[i as int]);
            assert(match fb.body().child_rank(cs@[i as int]) {
                Some(r) => r < bound,
                None => false,
            });
            let ghost before = acc;
            acc = match cs[i] {
                Child::Expr(id) => self.do_fold_expr(id, acc, fe, fp),
                Child::Pat(id) => self.do_fold_pat(id, acc, fe, fp),
            };
            proof {
                lemma_folds_to_concat(
                    *fe,
                    *fp,
                    initial,
                    children_visits(fb, s, prefix, m, bound),
                    before,
                    match cs@[i as int] {
                        Child::Expr(id) => expr_visits(fb, s, id, m),
                        Child::Pat(id) => pat_visits(fb, s, id, m),
                    },
                    acc,
                );
            }
            i = i + 1;
        }
        assert(cs@.subrange(0, cs.len() as int) =~= cs@);
        acc
    }

    pub fn do_fold_term<T, FT>(&mut self, term_id: TermId, initial: T, ft: &FT) -> (r: T) where
        FT: Fn(T, TermCallBackCtx) -> T,

        requires
            old(self).fold_body().body().wf(),
            old(self).fold_body().body().valid_term(term_id),
            old(self).stack().len() == 0,
            forall|acc: T, c: TermCallBackCtx| call_requires(*ft, (acc, c)),
        ensures
            final(self).fold_body() == old(self).fold_body(),
            final(self).strategy() == old(self).strategy(),
            final(self).stack() == old(self).stack(),
            term_folds_to(*ft, initial, term_visits(old(self).fold_body(), old(self).strategy(), term_id), r),
        decreases old(self).fold_body().body().term_rank(term_id), 1nat, 0nat,
    {
        let ghost fb = *self.body;
        let ghost s = self.strategy;
        let body = self.body;
        let term = body.term(term_id);
        proof {
            fb.body().lemma_wf_term(term_id);
        }
        let ctx = TermCallBackCtx { on: On::Entry, in_macro: self.in_macro(), term_id };
        let ghost entry: Seq<TermCallBackCtx> = if runs_on_entry(s) {
            seq![ctx]
        } else {
            Seq::empty()
        };
        let acc = match self.strategy {
            Strategy::TopDown | Strategy::Both => ft(initial, ctx),
            _ => initial,
        };
        proof {
            lemma_term_folds_to_empty(*ft, initial);
            if runs_on_entry(s) {
                lemma_term_folds_to_push(*ft, initial, Seq::empty(), initial, ctx, acc);
                assert(Seq::<TermCallBackCtx>::empty().push(ctx) =~= entry);
            }
        }
        let ghost inner = terms_visits(fb, s, term_children(*term), fb.body().term_rank(term_id));
        let ts = term_children_vec(term);
        let r = self.do_fold_terms(&ts, acc, ft, Ghost(fb.body().term_rank(term_id)));
        proof {
            lemma_term_folds_to_concat(*ft, initial, entry, acc, inner, r);
        }
        let ctx = TermCallBackCtx { on: On::Exit, in_macro: self.in_macro(), term_id };
        let out = match self.strategy {
            Strategy::BottomUp | Strategy::Both => ft(r, ctx),
            _ => r,
        };
        proof {
            let exit: Seq<TermCallBackCtx> = if runs_on_exit(s) {
                seq![ctx]
            } else {
                Seq::empty()
            };
            if runs_on_exit(s) {
                lemma_term_folds_to_push(*ft, initial, entry + inner, r, ctx, out);
                assert((entry + inner).push(ctx) =~= entry + inner + exit);
            } else {
                assert(entry + inner + exit =~= entry + inner);
            }
        }
        out
    }

    fn do_fold_terms<T, FT>(
        &mut self,
        terms: &Vec<TermId>,
        initial: T,
        ft: &FT,
        Ghost(bound): Ghost<nat>,
    ) -> (r: T) where FT: Fn(T, TermCallBackCtx) -> T
        requires
            old(self).body.body().wf(),
            old(self).macro_stack@.len() == 0,
            forall|k: int|
                0 <= k < terms@.len() ==> old(self).body.body().valid_term(#[trigger] terms@[k])
                    && old(self).body.body().term_rank(terms@[k]) < bound,
            forall|acc: T, c: TermCallBackCtx| call_requires(*ft, (acc, c)),
        ensures
            final(self).body == old(self).body,
            final(self).strategy == old(self).strategy,
            final(self).macro_stack@ == old(self).macro_stack@,
            term_folds_to(
                *ft,
                initial,
                terms_visits(*old(self).body, old(self).strategy, terms@, bound),
                r,
            ),
        decreases bound, 0nat, 0nat,
    {
        let ghost fb = *self.body;
        let ghost s = self.strategy;
        let mut acc = initial;
        let mut i: usize = 0;
        proof {
            lemma_term_folds_to_empty(*ft, initial);
            assert(terms@.subrange(0, 0) =~= Seq::<TermId>::empty());
        }
        while i < terms.len()
            invariant
                i <= terms.len(),
                self.body == old(self).body,
                self.strategy == old(self).strategy,
                self.macro_stack@ == old(self).macro_stack@,
                self.macro_stack@.len() == 0,
                fb == *self.body,
                s == self.strategy,
                fb.body().wf(),
                forall|k: int|
                    0 <= k < terms@.len() ==> fb.body().valid_term(#[trigger] terms@[k])
                        && fb.body().term_rank(terms@[k]) < bound,
                forall|acc: T, c: TermCallBackCtx| call_requires(*ft, (acc, c)),
                term_folds_to(*ft, initial, terms_visits(fb, s, terms@.subrange(0, i as int), bound), acc),
            decreases terms.len() - i,
        {
            let ghost prefix = terms@.subrange(0, i as int);
            let ghost next = terms@.subrange(0, i + 1);
            assert(next.drop_last() =~= prefix);
            assert(next.last() == terms@[i as int]);
            let ghost before = acc;
            acc = self.do_fold_term(terms[i], acc, ft);
            proof {
                lemma_term_folds_to_concat(
                    *ft,
                    initial,
                    terms_visits(fb, s, prefix, bound),
                    before,
                    term_visits(fb, s, terms@[i as int]),
                    acc,
                );
            }
            i = i + 1;
        }
        assert(terms@.subrange(0, terms.len() as int) =~= terms@);
        acc
    }
}

} // verus!
