//! The body source map: relates expression ids to the syntax nodes they
//! were lowered from, in both directions. Ids without a node are synthetic
//! (made inside a macro expansion).

use vstd::prelude::*;

use crate::hir::ExprId;

verus! {

/// A pointer to a syntax node: its kind and its text range.
#[derive(Clone, Copy, Debug, PartialEq, Eq, Hash, Structural)]
pub struct AstPtr {
    pub kind: u16,
    pub start: u32,
    pub end: u32,
}

pub struct BodySourceMap {
    entries: Vec<(ExprId, AstPtr)>,
}

/// The node recorded for `i` in `s`, the latest entry first.
pub open spec fn find_ast(s: Seq<(ExprId, AstPtr)>, i: ExprId) -> Option<AstPtr>
    decreases s.len(),
{
    if s.len() == 0 {
        None
    } else if s.last().0 == i {
        Some(s.last().1)
    } else {
        find_ast(s.drop_last(), i)
    }
}

/// The id recorded for `p` in `s`, the latest entry first.
pub open spec fn find_hir(s: Seq<(ExprId, AstPtr)>, p: AstPtr) -> Option<ExprId>
    decreases s.len(),
{
    if s.len() == 0 {
        None
    } else if s.last().1 == p {
        Some(s.last().0)
    } else {
        find_hir(s.drop_last(), p)
    }
}

/// No id and no node is recorded twice.
pub open spec fn injective(s: Seq<(ExprId, AstPtr)>) -> bool {
    forall|a: int, b: int|
        #![trigger s[a], s[b]]
        0 <= a < b < s.len() ==> s[a].0 != s[b].0 && s[a].1 != s[b].1
}

proof fn lemma_find_ast_in(s: Seq<(ExprId, AstPtr)>, i: ExprId)
    ensures
        find_ast(s, i) is Some ==> exists|k: int|
            0 <= k < s.len() && s[k].0 == i && s[k].1 == find_ast(s, i)->Some_0,
        find_ast(s, i) is None ==> forall|k: int| 0 <= k < s.len() ==> s[k].0 != i,
    decreases s.len(),
{
    if s.len() > 0 {
        lemma_find_ast_in(s.drop_last(), i);
        if s.last().0 != i && find_ast(s, i) is Some {
            let k = choose|k: int|
                0 <= k < s.drop_last().len() && s.drop_last()[k].0 == i && s.drop_last()[k].1
                    == find_ast(s, i)->Some_0;
            assert(s[k] == s.drop_last()[k]);
        }
        if find_ast(s, i) is None {
            assert forall|k: int| 0 <= k < s.len() implies s[k].0 != i by {
                if k < s.len() - 1 {
                    assert(s[k] == s.drop_last()[k]);
                }
            }
        }
    }
}

proof fn lemma_find_hir_at(s: Seq<(ExprId, AstPtr)>, k: int)
    requires
        injective(s),
        0 <= k < s.len(),
    ensures
        find_hir(s, s[k].1) == Some(s[k].0),
    decreases s.len(),
{
    if k < s.len() - 1 {
        assert(s[k].1 != s[s.len() - 1].1);
        assert(injective(s.drop_last())) by {
            assert forall|a: int, b: int|
                #![trigger s.drop_last()[a], s.drop_last()[b]]
                0 <= a < b < s.drop_last().len() implies s.drop_last()[a].0 != s.drop_last()[b].0
                && s.drop_last()[a].1 != s.drop_last()[b].1 by {
                assert(s.drop_last()[a] == s[a] && s.drop_last()[b] == s[b]);
            }
        }
        lemma_find_hir_at(s.drop_last(), k);
        assert(s.drop_last()[k] == s[k]);
    }
}

impl BodySourceMap {
    pub closed spec fn entries(&self) -> Seq<(ExprId, AstPtr)> {
        self.entries@
    }

    pub open spec fn wf(&self) -> bool {
        injective(self.entries())
    }

    /// The node an id was lowered from, `None` for a synthetic id.
    pub open spec fn to_ast(&self, i: ExprId) -> Option<AstPtr> {
        find_ast(self.entries(), i)
    }

    /// The id a node was lowered to.
    pub open spec fn to_hir(&self, p: AstPtr) -> Option<ExprId> {
        find_hir(self.entries(), p)
    }

    pub fn new() -> (r: BodySourceMap)
        ensures
            r.wf(),
            r.entries().len() == 0,
    {
        BodySourceMap { entries: Vec::new() }
    }

    /// Records that `id` was lowered from `ptr`; refused (`false`, map
    /// unchanged) when either is already recorded.
    pub fn insert(&mut self, id: ExprId, ptr: AstPtr) -> (r: bool)
        requires
            old(self).wf(),
        ensures
            final(self).wf(),
            r == (old(self).to_ast(id) is None && old(self).to_hir(ptr) is None),
            r ==> final(self).entries() == old(self).entries().push((id, ptr)),
            !r ==> final(self).entries() == old(self).entries(),
    {
        let ghost s = self.entries@;
        proof {
            lemma_find_ast_in(s, id);
        }
        let mut k: usize = 0;
        while k < self.entries.len()
            invariant
                s == self.entries@,
                injective(s),
                k <= s.len(),
                forall|m: int| 0 <= m < k ==> s[m].0 != id && s[m].1 != ptr,
            decreases s.len() - k,
        {
            let e = self.entries[k];
            if e.0 == id || e.1 == ptr {
                proof {
                    if e.1 == ptr {
                        lemma_find_hir_at(s, k as int);
                    }
                    if e.0 == id {
                        lemma_find_ast_in(s, id);
                        assert(s[k as int].0 == id);
                    }
                }
                return false;
            }
            k = k + 1;
        }
        proof {
            lemma_find_hir_none(s, ptr);
        }
        self.entries.push((id, ptr));
        assert forall|a: int, b: int|
            #![trigger self.entries@[a], self.entries@[b]]
            0 <= a < b < self.entries@.len() implies self.entries@[a].0 != self.entries@[b].0
            && self.entries@[a].1 != self.entries@[b].1 by {
            if b < s.len() {
                assert(self.entries@[a] == s[a] && self.entries@[b] == s[b]);
            } else {
                assert(self.entries@[a] == s[a]);
            }
        }
        true
    }

    pub fn node(&self, id: ExprId) -> (r: Option<AstPtr>)
        ensures
            r == self.to_ast(id),
    {
        let mut k: usize = self.entries.len();
        assert(self.entries@.subrange(0, k as int) =~= self.entries@);
        while k > 0
            invariant
                k <= self.entries@.len(),
                find_ast(self.entries@, id) == find_ast(self.entries@.subrange(0, k as int), id),
            decreases k,
        {
            let ghost pre = self.entries@.subrange(0, k as int);
            assert(pre.drop_last() =~= self.entries@.subrange(0, k - 1));
            if self.entries[k - 1].0 == id {
                return Some(self.entries[k - 1].1);
            }
            k = k - 1;
        }
        None
    }

    pub fn expr_id(&self, ptr: AstPtr) -> (r: Option<ExprId>)
        ensures
            r == self.to_hir(ptr),
    {
        let mut k: usize = self.entries.len();
        assert(self.entries@.subrange(0, k as int) =~= self.entries@);
        while k > 0
            invariant
                k <= self.entries@.len(),
                find_hir(self.entries@, ptr) == find_hir(self.entries@.subrange(0, k as int), ptr),
            decreases k,
        {
            let ghost pre = self.entries@.subrange(0, k as int);
            assert(pre.drop_last() =~= self.entries@.subrange(0, k - 1));
            if self.entries[k - 1].1 == ptr {
                return Some(self.entries[k - 1].0);
            }
            k = k - 1;
        }
        None
    }
}

proof fn lemma_find_hir_none(s: Seq<(ExprId, AstPtr)>, p: AstPtr)
    requires
        forall|m: int| 0 <= m < s.len() ==> s[m].1 != p,
    ensures
        find_hir(s, p) is None,
    decreases s.len(),
{
    if s.len() > 0 {
        assert forall|m: int| 0 <= m < s.drop_last().len() implies s.drop_last()[m].1 != p by {
            assert(s.drop_last()[m] == s[m]);
        }
        lemma_find_hir_none(s.drop_last(), p);
    }
}

/// Every id that has a node maps back to itself through that node.
pub proof fn lemma_source_map_round_trip(m: BodySourceMap, i: ExprId)
    requires
        m.wf(),
        m.to_ast(i) is Some,
    ensures
        m.to_hir(m.to_ast(i)->Some_0) == Some(i),
{
    lemma_find_ast_in(m.entries(), i);
    let k = choose|k: int|
        0 <= k < m.entries().len() && m.entries()[k].0 == i && m.entries()[k].1 == m.to_ast(
            i,
        )->Some_0;
    lemma_find_hir_at(m.entries(), k);
}

} // verus!
