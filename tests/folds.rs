use elp::fold::FoldBody;
use elp::hir::ComprehensionBuilder;
use elp::hir::ComprehensionExpr;
use elp::fold::FoldCtx;
use elp::fold::On;
use elp::fold::Strategy;
use elp::hir::Atom;
use elp::hir::Body;
use elp::hir::Expr;
use elp::hir::ExprId;
use elp::hir::Literal;
use elp::hir::Pat;
use elp::hir::Term;
use elp::hir::TermId;
use elp::hir::Var;

const A: Var = Var(1);
const B: Var = Var(2);
const Y: Var = Var(3);
const FOO: Atom = Atom(1);
const BAR: Atom = Atom(2);
const BAZ: Atom = Atom(3);

/// `begin A = B + 3, [A|A], Y = ~A, catch A, begin A, Y = 6 end, A end`
fn traverse_body() -> (Body, ExprId) {
    let mut b = Body::new();
    let pa = b.alloc_pat(Pat::Var(A));
    let vb = b.alloc_expr(Expr::Var(B));
    let three = b.alloc_expr(Expr::Literal(Literal::Integer(3)));
    let sum = b.alloc_expr(Expr::BinaryOp { lhs: vb, rhs: three });
    let m1 = b.alloc_expr(Expr::Match { lhs: pa, rhs: sum });
    let a1 = b.alloc_expr(Expr::Var(A));
    let a2 = b.alloc_expr(Expr::Var(A));
    let list = b.alloc_expr(Expr::List { exprs: vec![a1], tail: Some(a2) });
    let py = b.alloc_pat(Pat::Var(Y));
    let a3 = b.alloc_expr(Expr::Var(A));
    let neg = b.alloc_expr(Expr::UnaryOp { expr: a3 });
    let m2 = b.alloc_expr(Expr::Match { lhs: py, rhs: neg });
    let a4 = b.alloc_expr(Expr::Var(A));
    let catch = b.alloc_expr(Expr::Catch { expr: a4 });
    let a5 = b.alloc_expr(Expr::Var(A));
    let py2 = b.alloc_pat(Pat::Var(Y));
    let six = b.alloc_expr(Expr::Literal(Literal::Integer(6)));
    let m3 = b.alloc_expr(Expr::Match { lhs: py2, rhs: six });
    let inner = b.alloc_expr(Expr::Block { exprs: vec![a5, m3] });
    let a6 = b.alloc_expr(Expr::Var(A));
    let outer = b.alloc_expr(Expr::Block { exprs: vec![m1, list, m2, catch, inner, a6] });
    (b, outer)
}

#[test]
fn traverse_expr() {
    let (body, root) = traverse_body();
    let r: u32 = FoldCtx::fold_expr(
        &body,
        Strategy::TopDown,
        root,
        0,
        |acc, ctx| match body.expr(ctx.expr_id) {
            Expr::Var(v) if *v == A => acc + 1,
            _ => acc,
        },
        |acc, ctx| match body.pat(ctx.pat_id) {
            Pat::Var(v) if *v == A => acc + 1,
            _ => acc,
        },
    );
    // There are 7 occurrences of the Var "A" in the code example
    assert_eq!(r, 7);
}

#[test]
fn traverse_term() {
    // [{foo,bar},[baz, {foo}]]
    let mut b = Body::new();
    let foo1 = b.alloc_term(Term::Literal(Literal::Atom(FOO)));
    let bar = b.alloc_term(Term::Literal(Literal::Atom(BAR)));
    let t1 = b.alloc_term(Term::Tuple { exprs: vec![foo1, bar] });
    let baz = b.alloc_term(Term::Literal(Literal::Atom(BAZ)));
    let foo2 = b.alloc_term(Term::Literal(Literal::Atom(FOO)));
    let t2 = b.alloc_term(Term::Tuple { exprs: vec![foo2] });
    let l2 = b.alloc_term(Term::List { exprs: vec![baz, t2], tail: None });
    let root: TermId = b.alloc_term(Term::List { exprs: vec![t1, l2], tail: None });
    let r = FoldCtx::fold_term(&b, Strategy::TopDown, root, 0, |acc, ctx| {
        match b.term(ctx.term_id) {
            Term::Literal(Literal::Atom(atom)) if *atom == FOO => acc + 1,
            _ => acc,
        }
    });
    // There are 2 occurrences of the atom 'foo' in the code example
    assert_eq!(r, 2);
}

/// `begin ?AA(foo), {foo} end` with `-define(AA(X), {X,foo}).`
fn macro_body() -> (Body, ExprId) {
    let mut b = Body::new();
    let arg = b.alloc_expr(Expr::Literal(Literal::Atom(FOO)));
    let x = b.alloc_expr(Expr::Literal(Literal::Atom(FOO)));
    let f = b.alloc_expr(Expr::Literal(Literal::Atom(FOO)));
    let expansion = b.alloc_expr(Expr::Tuple { exprs: vec![x, f] });
    let call = b.alloc_expr(Expr::MacroCall { expansion, args: vec![arg] });
    let f2 = b.alloc_expr(Expr::Literal(Literal::Atom(FOO)));
    let t = b.alloc_expr(Expr::Tuple { exprs: vec![f2] });
    let block = b.alloc_expr(Expr::Block { exprs: vec![call, t] });
    (b, block)
}

fn count_in_and_out_of_macros(fold_body: &FoldBody, root: ExprId) -> (u32, u32) {
    FoldCtx::fold_expr_foldbody(
        fold_body,
        Strategy::TopDown,
        root,
        (0, 0),
        |(in_macro, not_in_macro), ctx| match fold_body.expr(ctx.expr_id) {
            Expr::Literal(Literal::Atom(atom)) if *atom == FOO => {
                if ctx.in_macro.is_some() {
                    (in_macro + 1, not_in_macro)
                } else {
                    (in_macro, not_in_macro + 1)
                }
            }
            _ => (in_macro, not_in_macro),
        },
        |acc, _ctx| acc,
    )
}

#[test]
fn macro_aware() {
    let (body, root) = macro_body();
    let fold_body = FoldBody::UnexpandedIndex(&body);
    assert_eq!(count_in_and_out_of_macros(&fold_body, root), (2, 1));
}

#[test]
fn ignore_macros() {
    let (body, root) = macro_body();
    let fold_body = FoldBody::Body(&body);
    assert_eq!(count_in_and_out_of_macros(&fold_body, root), (0, 3));
}

fn count(strategy: Strategy) -> u32 {
    let (body, root) = traverse_body();
    FoldCtx::fold_expr(&body, strategy, root, 0u32, |acc, _| acc + 1, |acc, _| acc + 1)
}

#[test]
fn callback_counts_by_strategy() {
    let top_down = count(Strategy::TopDown);
    let bottom_up = count(Strategy::BottomUp);
    let both = count(Strategy::Both);
    // 18 expressions and 3 patterns
    assert_eq!(top_down, 21);
    assert_eq!(bottom_up, top_down);
    assert_eq!(both, 2 * top_down);
}

#[test]
fn children_visited_in_source_order() {
    let (body, root) = traverse_body();
    let order: Vec<usize> = FoldCtx::fold_expr(
        &body,
        Strategy::TopDown,
        root,
        Vec::new(),
        |mut acc: Vec<usize>, ctx| {
            acc.push(ctx.expr_id.0);
            acc
        },
        |acc, _| acc,
    );
    assert_eq!(order[0], root.0);
    assert_eq!(order.len(), 18);
    let bottom_up: Vec<usize> = FoldCtx::fold_expr(
        &body,
        Strategy::BottomUp,
        root,
        Vec::new(),
        |mut acc: Vec<usize>, ctx| {
            assert_eq!(ctx.on, On::Exit);
            acc.push(ctx.expr_id.0);
            acc
        },
        |acc, _| acc,
    );
    assert_eq!(*bottom_up.last().unwrap(), root.0);
}

#[test]
fn fold_pat_visits_sub_patterns() {
    let mut b = Body::new();
    let pa = b.alloc_pat(Pat::Var(A));
    let pb = b.alloc_pat(Pat::Var(B));
    let tuple = b.alloc_pat(Pat::Tuple { pats: vec![pa, pb] });
    let r = FoldCtx::fold_pat(&b, Strategy::Both, tuple, 0u32, |acc, _| acc + 1, |acc, _| acc + 1);
    assert_eq!(r, 6);
}

#[test]
fn noop_callbacks_keep_the_accumulator() {
    let (body, root) = traverse_body();
    let r = FoldCtx::fold_expr(
        &body,
        Strategy::Both,
        root,
        5u32,
        elp::fold::noop_expr_callback,
        elp::fold::noop_pat_callback,
    );
    assert_eq!(r, 5);
    let mut b = Body::new();
    let t = b.alloc_term(Term::Literal(Literal::Atom(FOO)));
    let r = FoldCtx::fold_term(&b, Strategy::Both, t, 9u32, elp::fold::noop_term_callback);
    assert_eq!(r, 9);
}

#[test]
fn map_comprehension_visits_each_generator_once() {
    // #{K => V || {K, V} <- L, K > 0}
    let mut b = Body::new();
    let k = b.alloc_expr(Expr::Var(A));
    let v = b.alloc_expr(Expr::Var(B));
    let pk = b.alloc_pat(Pat::Var(A));
    let l = b.alloc_expr(Expr::Var(Y));
    let filter = b.alloc_expr(Expr::Var(A));
    let root = b.alloc_expr(Expr::Comprehension {
        builder: ComprehensionBuilder::MapBuilder(k, v),
        exprs: vec![
            ComprehensionExpr::ListGenerator { pat: pk, expr: l },
            ComprehensionExpr::Expr(filter),
        ],
    });
    let seen: Vec<usize> = FoldCtx::fold_expr(
        &b,
        Strategy::TopDown,
        root,
        Vec::new(),
        |mut acc: Vec<usize>, ctx| {
            acc.push(ctx.expr_id.0);
            acc
        },
        |acc, _| acc,
    );
    assert_eq!(seen, vec![root.0, k.0, v.0, l.0, filter.0]);
}
