//! Listing the sub-nodes of a node, in source order.

use vstd::prelude::*;

use crate::hir::Atom;
use crate::hir::BinarySeg;
use crate::hir::CRClause;
use crate::hir::CallTarget;
use crate::hir::CatchClause;
use crate::hir::Child;
use crate::hir::Clause;
use crate::hir::ComprehensionBuilder;
use crate::hir::ComprehensionExpr;
use crate::hir::Expr;
use crate::hir::ExprId;
use crate::hir::IfClause;
use crate::hir::MapOp;
use crate::hir::MaybeExpr;
use crate::hir::Pat;
use crate::hir::PatBinarySeg;
use crate::hir::PatId;
use crate::hir::Term;
use crate::hir::TermId;
use crate::hir::exprs_children;
use crate::hir::pats_children;
use crate::hir::opt_expr_children;
use crate::hir::opt_pat_children;
use crate::hir::guards_children;
use crate::hir::binary_segs_children;
use crate::hir::pat_binary_segs_children;
use crate::hir::record_fields_children;
use crate::hir::pat_record_fields_children;
use crate::hir::map_fields_children;
use crate::hir::map_update_children;
use crate::hir::pat_map_fields_children;
use crate::hir::target_children;
use crate::hir::comprehension_children;
use crate::hir::comprehension_exprs_children;
use crate::hir::if_clauses_children;
use crate::hir::cr_clauses_children;
use crate::hir::catch_clauses_children;
use crate::hir::clauses_children;
use crate::hir::maybe_exprs_children;
use crate::hir::expr_children;
use crate::hir::pat_children;
use crate::hir::term_children;
use crate::hir::term_fields_children;

verus! {

fn push_exprs(v: &mut Vec<Child>, s: &Vec<ExprId>)
    ensures
        final(v)@ == old(v)@ + exprs_children(s@),
{
    let mut i: usize = 0;
    while i < s.len()
        invariant
            i <= s.len(),
            v@ == old(v)@ + exprs_children(s@.subrange(0, i as int)),
        decreases s.len() - i,
    {
        v.push(Child::Expr(s[i]));
        assert(exprs_children(s@.subrange(0, i + 1)) =~= exprs_children(s@.subrange(0, i as int)).push(
            Child::Expr(s@[i as int]),
        ));
        i = i + 1;
    }
    assert(s@.subrange(0, s.len() as int) =~= s@);
}

fn push_pats(v: &mut Vec<Child>, s: &Vec<PatId>)
    ensures
        final(v)@ == old(v)@ + pats_children(s@),
{
    let mut i: usize = 0;
    while i < s.len()
        invariant
            i <= s.len(),
            v@ == old(v)@ + pats_children(s@.subrange(0, i as int)),
        decreases s.len() - i,
    {
        v.push(Child::Pat(s[i]));
        assert(pats_children(s@.subrange(0, i + 1)) =~= pats_children(s@.subrange(0, i as int)).push(
            Child::Pat(s@[i as int]),
        ));
        i = i + 1;
    }
    assert(s@.subrange(0, s.len() as int) =~= s@);
}

fn push_opt_expr(v: &mut Vec<Child>, o: &Option<ExprId>)
    ensures
        final(v)@ == old(v)@ + opt_expr_children(*o),
{
    if let Some(i) = o {
        v.push(Child::Expr(*i));
    }
    assert(v@ =~= old(v)@ + opt_expr_children(*o));
}

fn push_opt_pat(v: &mut Vec<Child>, o: &Option<PatId>)
    ensures
        final(v)@ == old(v)@ + opt_pat_children(*o),
{
    if let Some(i) = o {
        v.push(Child::Pat(*i));
    }
    assert(v@ =~= old(v)@ + opt_pat_children(*o));
}

fn push_guards(v: &mut Vec<Child>, g: &Vec<Vec<ExprId>>)
    ensures
        final(v)@ == old(v)@ + guards_children(g@),
{
    let mut i: usize = 0;
    while i < g.len()
        invariant
            i <= g.len(),
            v@ == old(v)@ + guards_children(g@.subrange(0, i as int)),
        decreases g.len() - i,
    {
        push_exprs(v, &g[i]);
        assert(g@.subrange(0, i + 1).drop_last() =~= g@.subrange(0, i as int));
        i = i + 1;
    }
    assert(g@.subrange(0, g.len() as int) =~= g@);
}

fn push_binary_segs(v: &mut Vec<Child>, s: &Vec<BinarySeg>)
    ensures
        final(v)@ == old(v)@ + binary_segs_children(s@),
{
    let mut i: usize = 0;
    while i < s.len()
        invariant
            i <= s.len(),
            v@ == old(v)@ + binary_segs_children(s@.subrange(0, i as int)),
        decreases s.len() - i,
    {
        v.push(Child::Expr(s[i].elem));
        push_opt_expr(v, &s[i].size);
        assert(s@.subrange(0, i + 1).drop_last() =~= s@.subrange(0, i as int));
        i = i + 1;
    }
    assert(s@.subrange(0, s.len() as int) =~= s@);
}

fn push_pat_binary_segs(v: &mut Vec<Child>, s: &Vec<PatBinarySeg>)
    ensures
        final(v)@ == old(v)@ + pat_binary_segs_children(s@),
{
    let mut i: usize = 0;
    while i < s.len()
        invariant
            i <= s.len(),
            v@ == old(v)@ + pat_binary_segs_children(s@.subrange(0, i as int)),
        decreases s.len() - i,
    {
        v.push(Child::Pat(s[i].elem));
        push_opt_expr(v, &s[i].size);
        assert(s@.subrange(0, i + 1).drop_last() =~= s@.subrange(0, i as int));
        i = i + 1;
    }
    assert(s@.subrange(0, s.len() as int) =~= s@);
}

fn push_record_fields(v: &mut Vec<Child>, s: &Vec<(Atom, ExprId)>)
    ensures
        final(v)@ == old(v)@ + record_fields_children(s@),
{
    let mut i: usize = 0;
    while i < s.len()
        invariant
            i <= s.len(),
            v@ == old(v)@ + record_fields_children(s@.subrange(0, i as int)),
        decreases s.len() - i,
    {
        v.push(Child::Expr(s[i].1));
        assert(record_fields_children(s@.subrange(0, i + 1)) =~= record_fields_children(
            s@.subrange(0, i as int),
        ).push(Child::Expr(s@[i as int].1)));
        i = i + 1;
    }
    assert(s@.subrange(0, s.len() as int) =~= s@);
}

fn push_pat_record_fields(v: &mut Vec<Child>, s: &Vec<(Atom, PatId)>)
    ensures
        final(v)@ == old(v)@ + pat_record_fields_children(s@),
{
    let mut i: usize = 0;
    while i < s.len()
        invariant
            i <= s.len(),
            v@ == old(v)@ + pat_record_fields_children(s@.subrange(0, i as int)),
        decreases s.len() - i,
    {
        v.push(Child::Pat(s[i].1));
        assert(pat_record_fields_children(s@.subrange(0, i + 1)) =~= pat_record_fields_children(
            s@.subrange(0, i as int),
        ).push(Child::Pat(s@[i as int].1)));
        i = i + 1;
    }
    assert(s@.subrange(0, s.len() as int) =~= s@);
}

fn push_map_fields(v: &mut Vec<Child>, s: &Vec<(ExprId, ExprId)>)
    ensures
        final(v)@ == old(v)@ + map_fields_children(s@),
{
    let mut i: usize = 0;
    while i < s.len()
        invariant
            i <= s.len(),
            v@ == old(v)@ + map_fields_children(s@.subrange(0, i as int)),
        decreases s.len() - i,
    {
        v.push(Child::Expr(s[i].0));
        v.push(Child::Expr(s[i].1));
        assert(s@.subrange(0, i + 1).drop_last() =~= s@.subrange(0, i as int));
        i = i + 1;
    }
    assert(s@.subrange(0, s.len() as int) =~= s@);
}

fn push_map_update(v: &mut Vec<Child>, s: &Vec<(ExprId, MapOp, ExprId)>)
    ensures
        final(v)@ == old(v)@ + map_update_children(s@),
{
    let mut i: usize = 0;
    while i < s.len()
        invariant
            i <= s.len(),
            v@ == old(v)@ + map_update_children(s@.subrange(0, i as int)),
        decreases s.len() - i,
    {
        v.push(Child::Expr(s[i].0));
        v.push(Child::Expr(s[i].2));
        assert(s@.subrange(0, i + 1).drop_last() =~= s@.subrange(0, i as int));
        i = i + 1;
    }
    assert(s@.subrange(0, s.len() as int) =~= s@);
}

fn push_pat_map_fields(v: &mut Vec<Child>, s: &Vec<(ExprId, PatId)>)
    ensures
        final(v)@ == old(v)@ + pat_map_fields_children(s@),
{
    let mut i: usize = 0;
    while i < s.len()
        invariant
            i <= s.len(),
            v@ == old(v)@ + pat_map_fields_children(s@.subrange(0, i as int)),
        decreases s.len() - i,
    {
        v.push(Child::Expr(s[i].0));
        v.push(Child::Pat(s[i].1));
        assert(s@.subrange(0, i + 1).drop_last() =~= s@.subrange(0, i as int));
        i = i + 1;
    }
    assert(s@.subrange(0, s.len() as int) =~= s@);
}

fn push_target(v: &mut Vec<Child>, t: &CallTarget)
    ensures
        final(v)@ == old(v)@ + target_children(*t),
{
    match t {
        CallTarget::Local { name } => {
            v.push(Child::Expr(*name));
        },
        CallTarget::Remote { module, name } => {
            v.push(Child::Expr(*module));
            v.push(Child::Expr(*name));
        },
    }
    assert(v@ =~= old(v)@ + target_children(*t));
}

fn push_comprehension(v: &mut Vec<Child>, e: ExprId, s: &Vec<ComprehensionExpr>)
    ensures
        final(v)@ == old(v)@ + comprehension_children(e, s@),
{
    v.push(Child::Expr(e));
    let ghost start = v@;
    let mut i: usize = 0;
    while i < s.len()
        invariant
            i <= s.len(),
            start == old(v)@.push(Child::Expr(e)),
            v@ == start + comprehension_exprs_children(s@.subrange(0, i as int)),
        decreases s.len() - i,
    {
        match s[i] {
            ComprehensionExpr::BinGenerator { pat, expr } => {
                v.push(Child::Pat(pat));
                v.push(Child::Expr(expr));
            },
            ComprehensionExpr::ListGenerator { pat, expr } => {
                v.push(Child::Pat(pat));
                v.push(Child::Expr(expr));
            },
            ComprehensionExpr::Expr(x) => {
                v.push(Child::Expr(x));
            },
            ComprehensionExpr::MapGenerator { key, value, expr } => {
                v.push(Child::Pat(key));
                v.push(Child::Pat(value));
                v.push(Child::Expr(expr));
            },
        }
        assert(s@.subrange(0, i + 1).drop_last() =~= s@.subrange(0, i as int));
        i = i + 1;
    }
    assert(s@.subrange(0, s.len() as int) =~= s@);
    assert(v@ =~= old(v)@ + comprehension_children(e, s@));
}

fn push_if_clauses(v: &mut Vec<Child>, s: &Vec<IfClause>)
    ensures
        final(v)@ == old(v)@ + if_clauses_children(s@),
{
    let mut i: usize = 0;
    while i < s.len()
        invariant
            i <= s.len(),
            v@ == old(v)@ + if_clauses_children(s@.subrange(0, i as int)),
        decreases s.len() - i,
    {
        push_guards(v, &s[i].guards);
        push_exprs(v, &s[i].exprs);
        assert(s@.subrange(0, i + 1).drop_last() =~= s@.subrange(0, i as int));
        i = i + 1;
    }
    assert(s@.subrange(0, s.len() as int) =~= s@);
}

fn push_cr_clauses(v: &mut Vec<Child>, s: &Vec<CRClause>)
    ensures
        final(v)@ == old(v)@ + cr_clauses_children(s@),
{
    let mut i: usize = 0;
    while i < s.len()
        invariant
            i <= s.len(),
            v@ == old(v)@ + cr_clauses_children(s@.subrange(0, i as int)),
        decreases s.len() - i,
    {
        v.push(Child::Pat(s[i].pat));
        push_guards(v, &s[i].guards);
        push_exprs(v, &s[i].exprs);
        assert(s@.subrange(0, i + 1).drop_last() =~= s@.subrange(0, i as int));
        i = i + 1;
    }
    assert(s@.subrange(0, s.len() as int) =~= s@);
}

fn push_catch_clauses(v: &mut Vec<Child>, s: &Vec<CatchClause>)
    ensures
        final(v)@ == old(v)@ + catch_clauses_children(s@),
{
    let mut i: usize = 0;
    while i < s.len()
        invariant
            i <= s.len(),
            v@ == old(v)@ + catch_clauses_children(s@.subrange(0, i as int)),
        decreases s.len() - i,
    {
        push_opt_pat(v, &s[i].class);
        v.push(Child::Pat(s[i].reason));
        push_opt_pat(v, &s[i].stack);
        push_guards(v, &s[i].guards);
        push_exprs(v, &s[i].exprs);
        assert(s@.subrange(0, i + 1).drop_last() =~= s@.subrange(0, i as int));
        i = i + 1;
    }
    assert(s@.subrange(0, s.len() as int) =~= s@);
}

fn push_clauses(v: &mut Vec<Child>, s: &Vec<Clause>)
    ensures
        final(v)@ == old(v)@ + clauses_children(s@),
{
    let mut i: usize = 0;
    while i < s.len()
        invariant
            i <= s.len(),
            v@ == old(v)@ + clauses_children(s@.subrange(0, i as int)),
        decreases s.len() - i,
    {
        push_pats(v, &s[i].pats);
        push_guards(v, &s[i].guards);
        push_exprs(v, &s[i].exprs);
        assert(s@.subrange(0, i + 1).drop_last() =~= s@.subrange(0, i as int));
        i = i + 1;
    }
    assert(s@.subrange(0, s.len() as int) =~= s@);
}

fn push_maybe_exprs(v: &mut Vec<Child>, s: &Vec<MaybeExpr>)
    ensures
        final(v)@ == old(v)@ + maybe_exprs_children(s@),
{
    let mut i: usize = 0;
    while i < s.len()
        invariant
            i <= s.len(),
            v@ == old(v)@ + maybe_exprs_children(s@.subrange(0, i as int)),
        decreases s.len() - i,
    {
        match s[i] {
            MaybeExpr::Cond { lhs, rhs } => {
                v.push(Child::Pat(lhs));
                v.push(Child::Expr(rhs));
            },
            MaybeExpr::Expr(x) => {
                v.push(Child::Expr(x));
            },
        }
        assert(s@.subrange(0, i + 1).drop_last() =~= s@.subrange(0, i as int));
        i = i + 1;
    }
    assert(s@.subrange(0, s.len() as int) =~= s@);
}

/// The sub-nodes of `e` in the order a walk visits them.
pub fn expr_children_vec(e: &Expr) -> (r: Vec<Child>)
    ensures
        r@ == expr_children(*e),
{
    let mut v: Vec<Child> = Vec::new();
    match e {
        Expr::Missing | Expr::Literal(_) | Expr::Var(_) | Expr::RecordIndex { .. }
        | Expr::MacroCall { .. } => {},
        Expr::Match { lhs, rhs } => {
            v.push(Child::Pat(*lhs));
            v.push(Child::Expr(*rhs));
        },
        Expr::Tuple { exprs } => push_exprs(&mut v, exprs),
        Expr::List { exprs, tail } => {
            push_exprs(&mut v, exprs);
            push_opt_expr(&mut v, tail);
        },
        Expr::Binary { segs } => push_binary_segs(&mut v, segs),
        Expr::UnaryOp { expr } => v.push(Child::Expr(*expr)),
        Expr::BinaryOp { lhs, rhs } => {
            v.push(Child::Expr(*lhs));
            v.push(Child::Expr(*rhs));
        },
        Expr::Record { name: _, fields } => push_record_fields(&mut v, fields),
        Expr::RecordUpdate { expr, name: _, fields } => {
            v.push(Child::Expr(*expr));
            push_record_fields(&mut v, fields);
        },
        Expr::RecordField { expr, .. } => v.push(Child::Expr(*expr)),
        Expr::MapCons { fields } => push_map_fields(&mut v, fields),
        Expr::MapUpdate { expr, fields } => {
            v.push(Child::Expr(*expr));
            push_map_update(&mut v, fields);
        },
        Expr::Catch { expr } => v.push(Child::Expr(*expr)),
        Expr::Call { target, args } => {
            push_target(&mut v, target);
            push_exprs(&mut v, args);
        },
        Expr::Comprehension { builder, exprs } => match builder {
            ComprehensionBuilder::List(x) => push_comprehension(&mut v, *x, exprs),
            ComprehensionBuilder::Binary(x) => push_comprehension(&mut v, *x, exprs),
            ComprehensionBuilder::MapBuilder(k, x) => {
                v.push(Child::Expr(*k));
                push_comprehension(&mut v, *x, exprs);
            },
        },
        Expr::Block { exprs } => push_exprs(&mut v, exprs),
        Expr::If { clauses } => push_if_clauses(&mut v, clauses),
        Expr::Case { expr, clauses } => {
            v.push(Child::Expr(*expr));
            push_cr_clauses(&mut v, clauses);
        },
        Expr::Receive { clauses, after } => {
            push_cr_clauses(&mut v, clauses);
            if let Some(a) = after {
                v.push(Child::Expr(a.timeout));
                push_exprs(&mut v, &a.exprs);
            }
        },
        Expr::Try { exprs, of_clauses, catch_clauses, after } => {
            push_exprs(&mut v, exprs);
            push_cr_clauses(&mut v, of_clauses);
            push_catch_clauses(&mut v, catch_clauses);
            push_exprs(&mut v, after);
        },
        Expr::CaptureFun { target, arity } => {
            push_target(&mut v, target);
            v.push(Child::Expr(*arity));
        },
        Expr::Closure { clauses, name: _ } => push_clauses(&mut v, clauses),
        Expr::Maybe { exprs, else_clauses } => {
            push_maybe_exprs(&mut v, exprs);
            push_cr_clauses(&mut v, else_clauses);
        },
    }
    assert(v@ =~= expr_children(*e));
    v
}

/// The sub-nodes of `p` in the order a walk visits them.
pub fn pat_children_vec(p: &Pat) -> (r: Vec<Child>)
    ensures
        r@ == pat_children(*p),
{
    let mut v: Vec<Child> = Vec::new();
    match p {
        Pat::Missing | Pat::Literal(_) | Pat::Var(_) | Pat::RecordIndex { .. } => {},
        Pat::Match { lhs, rhs } => {
            v.push(Child::Pat(*lhs));
            v.push(Child::Pat(*rhs));
        },
        Pat::Tuple { pats } => push_pats(&mut v, pats),
        Pat::List { pats, tail } => {
            push_pats(&mut v, pats);
            push_opt_pat(&mut v, tail);
        },
        Pat::Binary { segs } => push_pat_binary_segs(&mut v, segs),
        Pat::UnaryOp { pat } => v.push(Child::Pat(*pat)),
        Pat::BinaryOp { lhs, rhs } => {
            v.push(Child::Pat(*lhs));
            v.push(Child::Pat(*rhs));
        },
        Pat::Record { name: _, fields } => push_pat_record_fields(&mut v, fields),
        Pat::MapPat { fields } => push_pat_map_fields(&mut v, fields),
        Pat::MacroCall { expansion, args } => {
            v.push(Child::Pat(*expansion));
            push_exprs(&mut v, args);
        },
    }
    assert(v@ =~= pat_children(*p));
    v
}

/// The sub-terms of `t` in the order a walk visits them.
pub fn term_children_vec(t: &Term) -> (r: Vec<TermId>)
    ensures
        r@ == term_children(*t),
{
    let mut v: Vec<TermId> = Vec::new();
    match t {
        Term::Tuple { exprs } => {
            let mut i: usize = 0;
            while i < exprs.len()
                invariant
                    i <= exprs.len(),
                    v@ == exprs@.subrange(0, i as int),
                decreases exprs.len() - i,
            {
                v.push(exprs[i]);
                assert(exprs@.subrange(0, i + 1) =~= exprs@.subrange(0, i as int).push(exprs@[i as int]));
                i = i + 1;
            }
            assert(exprs@.subrange(0, exprs.len() as int) =~= exprs@);
        },
        Term::List { exprs, tail } => {
            let mut i: usize = 0;
            while i < exprs.len()
                invariant
                    i <= exprs.len(),
                    v@ == exprs@.subrange(0, i as int),
                decreases exprs.len() - i,
            {
                v.push(exprs[i]);
                assert(exprs@.subrange(0, i + 1) =~= exprs@.subrange(0, i as int).push(exprs@[i as int]));
                i = i + 1;
            }
            assert(exprs@.subrange(0, exprs.len() as int) =~= exprs@);
            if let Some(x) = tail {
                v.push(*x);
            }
        },
        Term::MapTerm { fields } => {
            let mut i: usize = 0;
            while i < fields.len()
                invariant
                    i <= fields.len(),
                    v@ == term_fields_children(fields@.subrange(0, i as int)),
                decreases fields.len() - i,
            {
                v.push(fields[i].0);
                v.push(fields[i].1);
                assert(fields@.subrange(0, i + 1).drop_last() =~= fields@.subrange(0, i as int));
                assert(v@ =~= term_fields_children(fields@.subrange(0, i + 1)));
                i = i + 1;
            }
            assert(fields@.subrange(0, fields.len() as int) =~= fields@);
        },
        Term::MacroCall { expansion, args: _ } => {
            v.push(*expansion);
        },
        _ => {},
    }
    assert(v@ =~= term_children(*t));
    v
}

} // verus!
