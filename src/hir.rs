//! The lowered, id-addressed representation of one top-level form.
//!
//! A `Body` owns one arena per entity kind. Every node carries a rank that is
//! strictly greater than the ranks of the nodes it refers to, so walks over a
//! body always terminate.

use vstd::prelude::*;

verus! {

#[derive(Clone, Copy, Debug, PartialEq, Eq, Hash, Structural)]
pub struct ExprId(pub usize);

#[derive(Clone, Copy, Debug, PartialEq, Eq, Hash, Structural)]
pub struct PatId(pub usize);

#[derive(Clone, Copy, Debug, PartialEq, Eq, Hash, Structural)]
pub struct TermId(pub usize);

/// Interned atom handle.
#[derive(Clone, Copy, Debug, PartialEq, Eq, Hash, Structural)]
pub struct Atom(pub u32);

/// Interned variable-name handle.
#[derive(Clone, Copy, Debug, PartialEq, Eq, Hash, Structural)]
pub struct Var(pub u32);

#[derive(Clone, Debug, PartialEq, Eq)]
pub enum Literal {
    String(String),
    Char(char),
    Atom(Atom),
    Integer(i128),
}

#[derive(Clone, Copy, Debug, PartialEq, Eq)]
pub enum MapOp {
    Assoc,
    Exact,
}

#[derive(Clone, Copy, Debug, PartialEq, Eq)]
pub struct BinarySeg {
    pub elem: ExprId,
    pub size: Option<ExprId>,
}

#[derive(Clone, Copy, Debug, PartialEq, Eq)]
pub struct PatBinarySeg {
    pub elem: PatId,
    pub size: Option<ExprId>,
}

#[derive(Clone, Copy, Debug, PartialEq, Eq)]
pub enum CallTarget {
    Local { name: ExprId },
    Remote { module: ExprId, name: ExprId },
}

#[derive(Clone, Copy, Debug, PartialEq, Eq)]
pub enum ComprehensionBuilder {
    List(ExprId),
    Binary(ExprId),
    MapBuilder(ExprId, ExprId),
}

#[derive(Clone, Copy, Debug, PartialEq, Eq)]
pub enum ComprehensionExpr {
    BinGenerator { pat: PatId, expr: ExprId },
    ListGenerator { pat: PatId, expr: ExprId },
    Expr(ExprId),
    MapGenerator { key: PatId, value: PatId, expr: ExprId },
}

/// A guarded clause of `if`: guard groups, then body.
#[derive(Clone, Debug, PartialEq, Eq)]
pub struct IfClause {
    pub guards: Vec<Vec<ExprId>>,
    pub exprs: Vec<ExprId>,
}

/// A clause of `case`, `receive` or `try ... of`.
#[derive(Clone, Debug, PartialEq, Eq)]
pub struct CRClause {
    pub pat: PatId,
    pub guards: Vec<Vec<ExprId>>,
    pub exprs: Vec<ExprId>,
}

#[derive(Clone, Debug, PartialEq, Eq)]
pub struct CatchClause {
    pub class: Option<PatId>,
    pub reason: PatId,
    pub stack: Option<PatId>,
    pub guards: Vec<Vec<ExprId>>,
    pub exprs: Vec<ExprId>,
}

#[derive(Clone, Debug, PartialEq, Eq)]
pub struct ReceiveAfter {
    pub timeout: ExprId,
    pub exprs: Vec<ExprId>,
}

/// A clause of a closure (or of a function).
#[derive(Clone, Debug, PartialEq, Eq)]
pub struct Clause {
    pub pats: Vec<PatId>,
    pub guards: Vec<Vec<ExprId>>,
    pub exprs: Vec<ExprId>,
}

#[derive(Clone, Copy, Debug, PartialEq, Eq)]
pub enum MaybeExpr {
    Cond { lhs: PatId, rhs: ExprId },
    Expr(ExprId),
}

#[derive(Clone, Debug, PartialEq, Eq)]
pub enum Expr {
    Missing,
    Literal(Literal),
    Var(Var),
    Match { lhs: PatId, rhs: ExprId },
    Tuple { exprs: Vec<ExprId> },
    List { exprs: Vec<ExprId>, tail: Option<ExprId> },
    Binary { segs: Vec<BinarySeg> },
    UnaryOp { expr: ExprId },
    BinaryOp { lhs: ExprId, rhs: ExprId },
    Record { name: Atom, fields: Vec<(Atom, ExprId)> },
    RecordUpdate { expr: ExprId, name: Atom, fields: Vec<(Atom, ExprId)> },
    RecordIndex { name: Atom, field: Atom },
    RecordField { expr: ExprId, name: Atom, field: Atom },
    MapCons { fields: Vec<(ExprId, ExprId)> },
    MapUpdate { expr: ExprId, fields: Vec<(ExprId, MapOp, ExprId)> },
    Catch { expr: ExprId },
    MacroCall { expansion: ExprId, args: Vec<ExprId> },
    Call { target: CallTarget, args: Vec<ExprId> },
    Comprehension { builder: ComprehensionBuilder, exprs: Vec<ComprehensionExpr> },
    Block { exprs: Vec<ExprId> },
    If { clauses: Vec<IfClause> },
    Case { expr: ExprId, clauses: Vec<CRClause> },
    Receive { clauses: Vec<CRClause>, after: Option<ReceiveAfter> },
    Try {
        exprs: Vec<ExprId>,
        of_clauses: Vec<CRClause>,
        catch_clauses: Vec<CatchClause>,
        after: Vec<ExprId>,
    },
    CaptureFun { target: CallTarget, arity: ExprId },
    Closure { clauses: Vec<Clause>, name: Option<PatId> },
    Maybe { exprs: Vec<MaybeExpr>, else_clauses: Vec<CRClause> },
}

#[derive(Clone, Debug, PartialEq, Eq)]
pub enum Pat {
    Missing,
    Literal(Literal),
    Var(Var),
    Match { lhs: PatId, rhs: PatId },
    Tuple { pats: Vec<PatId> },
    List { pats: Vec<PatId>, tail: Option<PatId> },
    Binary { segs: Vec<PatBinarySeg> },
    UnaryOp { pat: PatId },
    BinaryOp { lhs: PatId, rhs: PatId },
    Record { name: Atom, fields: Vec<(Atom, PatId)> },
    RecordIndex { name: Atom, field: Atom },
    MapPat { fields: Vec<(ExprId, PatId)> },
    MacroCall { expansion: PatId, args: Vec<ExprId> },
}

#[derive(Clone, Debug, PartialEq, Eq)]
pub enum Term {
    Missing,
    Literal(Literal),
    Binary(Vec<u8>),
    Tuple { exprs: Vec<TermId> },
    List { exprs: Vec<TermId>, tail: Option<TermId> },
    MapTerm { fields: Vec<(TermId, TermId)> },
    CaptureFun { module: Atom, name: Atom, arity: u32 },
    MacroCall { expansion: TermId, args: Vec<ExprId> },
}

/// A reference from a node to one of its sub-nodes.
#[derive(Clone, Copy, Debug, PartialEq, Eq)]
pub enum Child {
    Expr(ExprId),
    Pat(PatId),
}

// ---------------------------------------------------------------------
// Children of each node, in source order.

pub open spec fn exprs_children(s: Seq<ExprId>) -> Seq<Child> {
    s.map_values(|i: ExprId| Child::Expr(i))
}

pub open spec fn pats_children(s: Seq<PatId>) -> Seq<Child> {
    s.map_values(|i: PatId| Child::Pat(i))
}

pub open spec fn opt_expr_children(o: Option<ExprId>) -> Seq<Child> {
    match o {
        Some(i) => seq![Child::Expr(i)],
        None => Seq::empty(),
    }
}

pub open spec fn opt_pat_children(o: Option<PatId>) -> Seq<Child> {
    match o {
        Some(i) => seq![Child::Pat(i)],
        None => Seq::empty(),
    }
}

pub open spec fn guards_children(g: Seq<Vec<ExprId>>) -> Seq<Child>
    decreases g.len(),
{
    if g.len() == 0 {
        Seq::empty()
    } else {
        guards_children(g.drop_last()) + exprs_children(g.last()@)
    }
}

pub open spec fn binary_seg_children(s: BinarySeg) -> Seq<Child> {
    seq![Child::Expr(s.elem)] + opt_expr_children(s.size)
}

pub open spec fn binary_segs_children(s: Seq<BinarySeg>) -> Seq<Child>
    decreases s.len(),
{
    if s.len() == 0 {
        Seq::empty()
    } else {
        binary_segs_children(s.drop_last()) + binary_seg_children(s.last())
    }
}

pub open spec fn pat_binary_segs_children(s: Seq<PatBinarySeg>) -> Seq<Child>
    decreases s.len(),
{
    if s.len() == 0 {
        Seq::empty()
    } else {
        pat_binary_segs_children(s.drop_last()) + seq![Child::Pat(s.last().elem)]
            + opt_expr_children(s.last().size)
    }
}

pub open spec fn record_fields_children(s: Seq<(Atom, ExprId)>) -> Seq<Child> {
    s.map_values(|f: (Atom, ExprId)| Child::Expr(f.1))
}

pub open spec fn pat_record_fields_children(s: Seq<(Atom, PatId)>) -> Seq<Child> {
    s.map_values(|f: (Atom, PatId)| Child::Pat(f.1))
}

pub open spec fn map_fields_children(s: Seq<(ExprId, ExprId)>) -> Seq<Child>
    decreases s.len(),
{
    if s.len() == 0 {
        Seq::empty()
    } else {
        map_fields_children(s.drop_last()) + seq![Child::Expr(s.last().0), Child::Expr(s.last().1)]
    }
}

pub open spec fn map_update_children(s: Seq<(ExprId, MapOp, ExprId)>) -> Seq<Child>
    decreases s.len(),
{
    if s.len() == 0 {
        Seq::empty()
    } else {
        map_update_children(s.drop_last()) + seq![Child::Expr(s.last().0), Child::Expr(s.last().2)]
    }
}

pub open spec fn pat_map_fields_children(s: Seq<(ExprId, PatId)>) -> Seq<Child>
    decreases s.len(),
{
    if s.len() == 0 {
        Seq::empty()
    } else {
        pat_map_fields_children(s.drop_last()) + seq![Child::Expr(s.last().0), Child::Pat(s.last().1)]
    }
}

pub open spec fn target_children(t: CallTarget) -> Seq<Child> {
    match t {
        CallTarget::Local { name } => seq![Child::Expr(name)],
        CallTarget::Remote { module, name } => seq![Child::Expr(module), Child::Expr(name)],
    }
}

pub open spec fn comprehension_expr_children(c: ComprehensionExpr) -> Seq<Child> {
    match c {
        ComprehensionExpr::BinGenerator { pat, expr } => seq![Child::Pat(pat), Child::Expr(expr)],
        ComprehensionExpr::ListGenerator { pat, expr } => seq![Child::Pat(pat), Child::Expr(expr)],
        ComprehensionExpr::Expr(e) => seq![Child::Expr(e)],
        ComprehensionExpr::MapGenerator { key, value, expr } => seq![
            Child::Pat(key),
            Child::Pat(value),
            Child::Expr(expr),
        ],
    }
}

pub open spec fn comprehension_exprs_children(s: Seq<ComprehensionExpr>) -> Seq<Child>
    decreases s.len(),
{
    if s.len() == 0 {
        Seq::empty()
    } else {
        comprehension_exprs_children(s.drop_last()) + comprehension_expr_children(s.last())
    }
}

/// The builder expression, then every generator and filter, each once.
pub open spec fn comprehension_children(e: ExprId, s: Seq<ComprehensionExpr>) -> Seq<Child> {
    seq![Child::Expr(e)] + comprehension_exprs_children(s)
}

pub open spec fn builder_children(b: ComprehensionBuilder, s: Seq<ComprehensionExpr>) -> Seq<
    Child,
> {
    match b {
        ComprehensionBuilder::List(e) => comprehension_children(e, s),
        ComprehensionBuilder::Binary(e) => comprehension_children(e, s),
        ComprehensionBuilder::MapBuilder(k, v) => seq![Child::Expr(k)] + comprehension_children(v, s),
    }
}

pub open spec fn if_clauses_children(s: Seq<IfClause>) -> Seq<Child>
    decreases s.len(),
{
    if s.len() == 0 {
        Seq::empty()
    } else {
        if_clauses_children(s.drop_last()) + guards_children(s.last().guards@) + exprs_children(
            s.last().exprs@,
        )
    }
}

pub open spec fn cr_clause_children(c: CRClause) -> Seq<Child> {
    seq![Child::Pat(c.pat)] + guards_children(c.guards@) + exprs_children(c.exprs@)
}

pub open spec fn cr_clauses_children(s: Seq<CRClause>) -> Seq<Child>
    decreases s.len(),
{
    if s.len() == 0 {
        Seq::empty()
    } else {
        cr_clauses_children(s.drop_last()) + cr_clause_children(s.last())
    }
}

pub open spec fn catch_clause_children(c: CatchClause) -> Seq<Child> {
    opt_pat_children(c.class) + seq![Child::Pat(c.reason)] + opt_pat_children(c.stack)
        + guards_children(c.guards@) + exprs_children(c.exprs@)
}

pub open spec fn catch_clauses_children(s: Seq<CatchClause>) -> Seq<Child>
    decreases s.len(),
{
    if s.len() == 0 {
        Seq::empty()
    } else {
        catch_clauses_children(s.drop_last()) + catch_clause_children(s.last())
    }
}

pub open spec fn after_children(a: Option<ReceiveAfter>) -> Seq<Child> {
    match a {
        Some(a) => seq![Child::Expr(a.timeout)] + exprs_children(a.exprs@),
        None => Seq::empty(),
    }
}

pub open spec fn clauses_children(s: Seq<Clause>) -> Seq<Child>
    decreases s.len(),
{
    if s.len() == 0 {
        Seq::empty()
    } else {
        clauses_children(s.drop_last()) + pats_children(s.last().pats@) + guards_children(
            s.last().guards@,
        ) + exprs_children(s.last().exprs@)
    }
}

pub open spec fn maybe_exprs_children(s: Seq<MaybeExpr>) -> Seq<Child>
    decreases s.len(),
{
    if s.len() == 0 {
        Seq::empty()
    } else {
        maybe_exprs_children(s.drop_last()) + match s.last() {
            MaybeExpr::Cond { lhs, rhs } => seq![Child::Pat(lhs), Child::Expr(rhs)],
            MaybeExpr::Expr(e) => seq![Child::Expr(e)],
        }
    }
}

/// The sub-nodes of an expression in source order. The expansion of a macro
/// call is not among them: a walk enters it in a macro frame of its own.
pub open spec fn expr_children(e: Expr) -> Seq<Child> {
    match e {
        Expr::Missing => Seq::empty(),
        Expr::Literal(_) => Seq::empty(),
        Expr::Var(_) => Seq::empty(),
        Expr::Match { lhs, rhs } => seq![Child::Pat(lhs), Child::Expr(rhs)],
        Expr::Tuple { exprs } => exprs_children(exprs@),
        Expr::List { exprs, tail } => exprs_children(exprs@) + opt_expr_children(tail),
        Expr::Binary { segs } => binary_segs_children(segs@),
        Expr::UnaryOp { expr } => seq![Child::Expr(expr)],
        Expr::BinaryOp { lhs, rhs } => seq![Child::Expr(lhs), Child::Expr(rhs)],
        Expr::Record { name: _, fields } => record_fields_children(fields@),
        Expr::RecordUpdate { expr, name: _, fields } => seq![Child::Expr(expr)]
            + record_fields_children(fields@),
        Expr::RecordIndex { .. } => Seq::empty(),
        Expr::RecordField { expr, .. } => seq![Child::Expr(expr)],
        Expr::MapCons { fields } => map_fields_children(fields@),
        Expr::MapUpdate { expr, fields } => seq![Child::Expr(expr)] + map_update_children(fields@),
        Expr::Catch { expr } => seq![Child::Expr(expr)],
        Expr::MacroCall { .. } => Seq::empty(),
        Expr::Call { target, args } => target_children(target) + exprs_children(args@),
        Expr::Comprehension { builder, exprs } => builder_children(builder, exprs@),
        Expr::Block { exprs } => exprs_children(exprs@),
        Expr::If { clauses } => if_clauses_children(clauses@),
        Expr::Case { expr, clauses } => seq![Child::Expr(expr)] + cr_clauses_children(clauses@),
        Expr::Receive { clauses, after } => cr_clauses_children(clauses@) + after_children(after),
        Expr::Try { exprs, of_clauses, catch_clauses, after } => exprs_children(exprs@)
            + cr_clauses_children(of_clauses@) + catch_clauses_children(catch_clauses@)
            + exprs_children(after@),
        Expr::CaptureFun { target, arity } => target_children(target) + seq![Child::Expr(arity)],
        Expr::Closure { clauses, name: _ } => clauses_children(clauses@),
        Expr::Maybe { exprs, else_clauses } => maybe_exprs_children(exprs@) + cr_clauses_children(
            else_clauses@,
        ),
    }
}

/// The sub-nodes of a pattern in source order.
pub open spec fn pat_children(p: Pat) -> Seq<Child> {
    match p {
        Pat::Missing => Seq::empty(),
        Pat::Literal(_) => Seq::empty(),
        Pat::Var(_) => Seq::empty(),
        Pat::Match { lhs, rhs } => seq![Child::Pat(lhs), Child::Pat(rhs)],
        Pat::Tuple { pats } => pats_children(pats@),
        Pat::List { pats, tail } => pats_children(pats@) + opt_pat_children(tail),
        Pat::Binary { segs } => pat_binary_segs_children(segs@),
        Pat::UnaryOp { pat } => seq![Child::Pat(pat)],
        Pat::BinaryOp { lhs, rhs } => seq![Child::Pat(lhs), Child::Pat(rhs)],
        Pat::Record { name: _, fields } => pat_record_fields_children(fields@),
        Pat::RecordIndex { .. } => Seq::empty(),
        Pat::MapPat { fields } => pat_map_fields_children(fields@),
        Pat::MacroCall { expansion, args } => seq![Child::Pat(expansion)] + exprs_children(args@),
    }
}

pub open spec fn term_seq_children(s: Seq<TermId>) -> Seq<TermId> {
    s
}

pub open spec fn term_fields_children(s: Seq<(TermId, TermId)>) -> Seq<TermId>
    decreases s.len(),
{
    if s.len() == 0 {
        Seq::empty()
    } else {
        term_fields_children(s.drop_last()) + seq![s.last().0, s.last().1]
    }
}

/// The sub-terms of a term in source order; the arguments of a macro call are
/// not walked, only its expansion.
pub open spec fn term_children(t: Term) -> Seq<TermId> {
    match t {
        Term::Tuple { exprs } => exprs@,
        Term::List { exprs, tail } => match tail {
            Some(t) => exprs@.push(t),
            None => exprs@,
        },
        Term::MapTerm { fields } => term_fields_children(fields@),
        Term::MacroCall { expansion, args: _ } => seq![expansion],
        _ => Seq::empty(),
    }
}

/// The arenas of one lowered form.
#[derive(Debug)]
pub struct Body {
    exprs: Vec<Expr>,
    expr_ranks: Vec<u64>,
    pats: Vec<Pat>,
    pat_ranks: Vec<u64>,
    terms: Vec<Term>,
    term_ranks: Vec<u64>,
    next_rank: u64,
}

impl Body {
    pub closed spec fn exprs(&self) -> Seq<Expr> {
        self.exprs@
    }

    pub closed spec fn pats(&self) -> Seq<Pat> {
        self.pats@
    }

    pub closed spec fn terms(&self) -> Seq<Term> {
        self.terms@
    }

    pub closed spec fn expr_rank(&self, id: ExprId) -> nat {
        self.expr_ranks@[id.0 as int] as nat
    }

    pub closed spec fn pat_rank(&self, id: PatId) -> nat {
        self.pat_ranks@[id.0 as int] as nat
    }

    pub closed spec fn term_rank(&self, id: TermId) -> nat {
        self.term_ranks@[id.0 as int] as nat
    }

    pub closed spec fn next_rank(&self) -> int {
        self.next_rank as int
    }

    pub open spec fn valid_expr(&self, id: ExprId) -> bool {
        id.0 < self.exprs().len()
    }

    pub open spec fn valid_pat(&self, id: PatId) -> bool {
        id.0 < self.pats().len()
    }

    pub open spec fn valid_term(&self, id: TermId) -> bool {
        id.0 < self.terms().len()
    }

    /// The rank of a child, or `None` when it points outside the arenas.
    pub open spec fn child_rank(&self, c: Child) -> Option<int> {
        match c {
            Child::Expr(i) => if self.valid_expr(i) {
                Some(self.expr_rank(i) as int)
            } else {
                None
            },
            Child::Pat(i) => if self.valid_pat(i) {
                Some(self.pat_rank(i) as int)
            } else {
                None
            },
        }
    }

    /// Every child exists and ranks below `bound`.
    pub open spec fn children_below(&self, cs: Seq<Child>, bound: int) -> bool {
        forall|k: int|
            0 <= k < cs.len() ==> match #[trigger] self.child_rank(cs[k]) {
                Some(r) => r < bound,
                None => false,
            }
    }

    pub open spec fn expr_node_ok(&self, e: Expr, bound: int) -> bool {
        &&& self.children_below(expr_children(e), bound)
        &&& match e {
            Expr::MacroCall { expansion, .. } => self.valid_expr(expansion) && self.expr_rank(
                expansion,
            ) < bound,
            _ => true,
        }
    }

    pub open spec fn pat_node_ok(&self, p: Pat, bound: int) -> bool {
        self.children_below(pat_children(p), bound)
    }

    pub open spec fn term_node_ok(&self, t: Term, bound: int) -> bool {
        forall|k: int|
            0 <= k < term_children(t).len() ==> self.valid_term(#[trigger] term_children(t)[k])
                && (self.term_rank(term_children(t)[k]) as int) < bound
    }

    /// Arenas and ranks agree, and every node refers only to nodes of
    /// lower rank.
    pub closed spec fn wf(&self) -> bool {
        &&& self.exprs@.len() == self.expr_ranks@.len()
        &&& self.pats@.len() == self.pat_ranks@.len()
        &&& self.terms@.len() == self.term_ranks@.len()
        &&& forall|i: int| 0 <= i < self.exprs@.len() ==> self.expr_ranks@[i] < self.next_rank
        &&& forall|i: int| 0 <= i < self.pats@.len() ==> self.pat_ranks@[i] < self.next_rank
        &&& forall|i: int| 0 <= i < self.terms@.len() ==> self.term_ranks@[i] < self.next_rank
        &&& forall|i: int|
            0 <= i < self.exprs@.len() ==> self.expr_node_ok(
                #[trigger] self.exprs@[i],
                self.expr_ranks@[i] as int,
            )
        &&& forall|i: int|
            0 <= i < self.pats@.len() ==> self.pat_node_ok(
                #[trigger] self.pats@[i],
                self.pat_ranks@[i] as int,
            )
        &&& forall|i: int|
            0 <= i < self.terms@.len() ==> self.term_node_ok(
                #[trigger] self.terms@[i],
                self.term_ranks@[i] as int,
            )
    }

    pub proof fn lemma_wf_expr(&self, id: ExprId)
        requires
            self.wf(),
            self.valid_expr(id),
        ensures
            self.expr_node_ok(self.exprs()[id.0 as int], self.expr_rank(id) as int),
    {
    }

    pub proof fn lemma_wf_pat(&self, id: PatId)
        requires
            self.wf(),
            self.valid_pat(id),
        ensures
            self.pat_node_ok(self.pats()[id.0 as int], self.pat_rank(id) as int),
    {
    }

    pub proof fn lemma_wf_term(&self, id: TermId)
        requires
            self.wf(),
            self.valid_term(id),
        ensures
            self.term_node_ok(self.terms()[id.0 as int], self.term_rank(id) as int),
    {
    }

    /// Every node ranks below the rank the next allocation gets.
    pub proof fn lemma_ranks_below(&self)
        requires
            self.wf(),
        ensures
            forall|i: ExprId| self.valid_expr(i) ==> self.expr_rank(i) < self.next_rank(),
            forall|i: PatId| self.valid_pat(i) ==> self.pat_rank(i) < self.next_rank(),
            forall|i: TermId| self.valid_term(i) ==> self.term_rank(i) < self.next_rank(),
    {
        assert forall|i: ExprId| self.valid_expr(i) implies self.expr_rank(i) < self.next_rank() by {
            assert(self.expr_ranks@[i.0 as int] < self.next_rank);
        }
        assert forall|i: PatId| self.valid_pat(i) implies self.pat_rank(i) < self.next_rank() by {
            assert(self.pat_ranks@[i.0 as int] < self.next_rank);
        }
        assert forall|i: TermId| self.valid_term(i) implies self.term_rank(i) < self.next_rank() by {
            assert(self.term_ranks@[i.0 as int] < self.next_rank);
        }
    }

    pub fn new() -> (r: Body)
        ensures
            r.wf(),
            r.exprs().len() == 0,
            r.pats().len() == 0,
            r.terms().len() == 0,
            r.next_rank() == 0,
    {
        Body {
            exprs: Vec::new(),
            expr_ranks: Vec::new(),
            pats: Vec::new(),
            pat_ranks: Vec::new(),
            terms: Vec::new(),
            term_ranks: Vec::new(),
            next_rank: 0,
        }
    }

    /// Adds an expression whose sub-nodes are already in the body.
    pub fn alloc_expr(&mut self, e: Expr) -> (id: ExprId)
        requires
            old(self).wf(),
            old(self).next_rank() < u64::MAX,
            old(self).expr_node_ok(e, old(self).next_rank()),
        ensures
            final(self).wf(),
            final(self).exprs() == old(self).exprs().push(e),
            final(self).pats() == old(self).pats(),
            final(self).terms() == old(self).terms(),
            final(self).next_rank() == old(self).next_rank() + 1,
            id.0 == old(self).exprs().len(),
            final(self).expr_rank(id) == old(self).next_rank(),
            forall|i: ExprId| old(self).valid_expr(i) ==> final(self).expr_rank(i) == old(self).expr_rank(i),
            forall|i: PatId| old(self).valid_pat(i) ==> final(self).pat_rank(i) == old(self).pat_rank(i),
            forall|i: TermId| old(self).valid_term(i) ==> final(self).term_rank(i) == old(self).term_rank(i),
    {
        let id = ExprId(self.exprs.len());
        let ghost old_self = *self;
        self.exprs.push(e);
        self.expr_ranks.push(self.next_rank);
        self.next_rank = self.next_rank + 1;
        proof {
            assert forall|i: int| 0 <= i < self.exprs@.len() implies self.expr_node_ok(
                #[trigger] self.exprs@[i],
                self.expr_ranks@[i] as int,
            ) by {
                if i < old_self.exprs@.len() {
                    assert(old_self.expr_node_ok(old_self.exprs@[i], old_self.expr_ranks@[i] as int));
                    let cs = expr_children(self.exprs@[i]);
                    assert forall|k: int| 0 <= k < cs.len() implies match #[trigger] self.child_rank(cs[k]) {
                        Some(r) => r < self.expr_ranks@[i] as int,
                        None => false,
                    } by {
                        assert(old_self.child_rank(cs[k]) is Some);
                    }
                } else {
                    let cs = expr_children(e);
                    assert forall|k: int| 0 <= k < cs.len() implies match #[trigger] self.child_rank(cs[k]) {
                        Some(r) => r < self.expr_ranks@[i] as int,
                        None => false,
                    } by {
                        assert(old_self.child_rank(cs[k]) is Some);
                    }
                }
            }
            assert forall|i: int| 0 <= i < self.pats@.len() implies self.pat_node_ok(
                #[trigger] self.pats@[i],
                self.pat_ranks@[i] as int,
            ) by {
                assert(old_self.pat_node_ok(old_self.pats@[i], old_self.pat_ranks@[i] as int));
                let cs = pat_children(self.pats@[i]);
                assert forall|k: int| 0 <= k < cs.len() implies match #[trigger] self.child_rank(cs[k]) {
                    Some(r) => r < self.pat_ranks@[i] as int,
                    None => false,
                } by {
                    assert(old_self.child_rank(cs[k]) is Some);
                }
            }
            assert forall|i: int| 0 <= i < self.terms@.len() implies self.term_node_ok(
                #[trigger] self.terms@[i],
                self.term_ranks@[i] as int,
            ) by {
                assert(old_self.term_node_ok(old_self.terms@[i], old_self.term_ranks@[i] as int));
            }
        }
        id
    }

    /// Adds a pattern whose sub-nodes are already in the body.
    pub fn alloc_pat(&mut self, p: Pat) -> (id: PatId)
        requires
            old(self).wf(),
            old(self).next_rank() < u64::MAX,
            old(self).pat_node_ok(p, old(self).next_rank()),
        ensures
            final(self).wf(),
            final(self).exprs() == old(self).exprs(),
            final(self).pats() == old(self).pats().push(p),
            final(self).terms() == old(self).terms(),
            final(self).next_rank() == old(self).next_rank() + 1,
            id.0 == old(self).pats().len(),
            final(self).pat_rank(id) == old(self).next_rank(),
            forall|i: ExprId| old(self).valid_expr(i) ==> final(self).expr_rank(i) == old(self).expr_rank(i),
            forall|i: PatId| old(self).valid_pat(i) ==> final(self).pat_rank(i) == old(self).pat_rank(i),
            forall|i: TermId| old(self).valid_term(i) ==> final(self).term_rank(i) == old(self).term_rank(i),
    {
        let id = PatId(self.pats.len());
        let ghost old_self = *self;
        self.pats.push(p);
        self.pat_ranks.push(self.next_rank);
        self.next_rank = self.next_rank + 1;
        proof {
            assert forall|i: int| 0 <= i < self.exprs@.len() implies self.expr_node_ok(
                #[trigger] self.exprs@[i],
                self.expr_ranks@[i] as int,
            ) by {
                assert(old_self.expr_node_ok(old_self.exprs@[i], old_self.expr_ranks@[i] as int));
                let cs = expr_children(self.exprs@[i]);
                assert forall|k: int| 0 <= k < cs.len() implies match #[trigger] self.child_rank(cs[k]) {
                    Some(r) => r < self.expr_ranks@[i] as int,
                    None => false,
                } by {
                    assert(old_self.child_rank(cs[k]) is Some);
                }
            }
            assert forall|i: int| 0 <= i < self.pats@.len() implies self.pat_node_ok(
                #[trigger] self.pats@[i],
                self.pat_ranks@[i] as int,
            ) by {
                let cs = pat_children(self.pats@[i]);
                if i < old_self.pats@.len() {
                    assert(old_self.pat_node_ok(old_self.pats@[i], old_self.pat_ranks@[i] as int));
                }
                assert forall|k: int| 0 <= k < cs.len() implies match #[trigger] self.child_rank(cs[k]) {
                    Some(r) => r < self.pat_ranks@[i] as int,
                    None => false,
                } by {
                    assert(old_self.child_rank(cs[k]) is Some);
                }
            }
            assert forall|i: int| 0 <= i < self.terms@.len() implies self.term_node_ok(
                #[trigger] self.terms@[i],
                self.term_ranks@[i] as int,
            ) by {
                assert(old_self.term_node_ok(old_self.terms@[i], old_self.term_ranks@[i] as int));
            }
        }
        id
    }

    /// Adds a term whose sub-terms are already in the body.
    pub fn alloc_term(&mut self, t: Term) -> (id: TermId)
        requires
            old(self).wf(),
            old(self).next_rank() < u64::MAX,
            old(self).term_node_ok(t, old(self).next_rank()),
        ensures
            final(self).wf(),
            final(self).exprs() == old(self).exprs(),
            final(self).pats() == old(self).pats(),
            final(self).terms() == old(self).terms().push(t),
            final(self).next_rank() == old(self).next_rank() + 1,
            id.0 == old(self).terms().len(),
            final(self).term_rank(id) == old(self).next_rank(),
            forall|i: ExprId| old(self).valid_expr(i) ==> final(self).expr_rank(i) == old(self).expr_rank(i),
            forall|i: PatId| old(self).valid_pat(i) ==> final(self).pat_rank(i) == old(self).pat_rank(i),
            forall|i: TermId| old(self).valid_term(i) ==> final(self).term_rank(i) == old(self).term_rank(i),
    {
        let id = TermId(self.terms.len());
        let ghost old_self = *self;
        self.terms.push(t);
        self.term_ranks.push(self.next_rank);
        self.next_rank = self.next_rank + 1;
        proof {
            assert forall|i: int| 0 <= i < self.exprs@.len() implies self.expr_node_ok(
                #[trigger] self.exprs@[i],
                self.expr_ranks@[i] as int,
            ) by {
                assert(old_self.expr_node_ok(old_self.exprs@[i], old_self.expr_ranks@[i] as int));
                let cs = expr_children(self.exprs@[i]);
                assert forall|k: int| 0 <= k < cs.len() implies match #[trigger] self.child_rank(cs[k]) {
                    Some(r) => r < self.expr_ranks@[i] as int,
                    None => false,
                } by {
                    assert(old_self.child_rank(cs[k]) is Some);
                }
            }
            assert forall|i: int| 0 <= i < self.pats@.len() implies self.pat_node_ok(
                #[trigger] self.pats@[i],
                self.pat_ranks@[i] as int,
            ) by {
                assert(old_self.pat_node_ok(old_self.pats@[i], old_self.pat_ranks@[i] as int));
                let cs = pat_children(self.pats@[i]);
                assert forall|k: int| 0 <= k < cs.len() implies match #[trigger] self.child_rank(cs[k]) {
                    Some(r) => r < self.pat_ranks@[i] as int,
                    None => false,
                } by {
                    assert(old_self.child_rank(cs[k]) is Some);
                }
            }
            assert forall|i: int| 0 <= i < self.terms@.len() implies self.term_node_ok(
                #[trigger] self.terms@[i],
                self.term_ranks@[i] as int,
            ) by {
                if i < old_self.terms@.len() {
                    assert(old_self.term_node_ok(old_self.terms@[i], old_self.term_ranks@[i] as int));
                }
            }
        }
        id
    }

    pub fn expr(&self, id: ExprId) -> (r: &Expr)
        requires
            self.valid_expr(id),
        ensures
            *r == self.exprs()[id.0 as int],
    {
        &self.exprs[id.0]
    }

    pub fn pat(&self, id: PatId) -> (r: &Pat)
        requires
            self.valid_pat(id),
        ensures
            *r == self.pats()[id.0 as int],
    {
        &self.pats[id.0]
    }

    pub fn term(&self, id: TermId) -> (r: &Term)
        requires
            self.valid_term(id),
        ensures
            *r == self.terms()[id.0 as int],
    {
        &self.terms[id.0]
    }

    pub fn expr_count(&self) -> (r: usize)
        ensures
            r == self.exprs().len(),
    {
        self.exprs.len()
    }

    pub fn pat_count(&self) -> (r: usize)
        ensures
            r == self.pats().len(),
    {
        self.pats.len()
    }

    pub fn term_count(&self) -> (r: usize)
        ensures
            r == self.terms().len(),
    {
        self.terms.len()
    }
}

} // verus!
