use vstd::prelude::*;

use crate::hir::{Expression, Statement};
use crate::location::Loc;
use crate::mir::ValueName;
use crate::signals::IdTracker;

verus! {

/// For each stage marker of a statement list, in order, whether it has a guard.
pub open spec fn stage_guards(stmts: Seq<Loc<Statement>>) -> Seq<bool>
    decreases stmts.len(),
{
    if stmts.len() == 0 {
        Seq::empty()
    } else {
        let rest = stage_guards(stmts.drop_last());
        match stmts.last().inner {
            Statement::PipelineRegMarker(cond) => rest.push(cond is Some),
            _ => rest,
        }
    }
}

/// For each stage marker of a statement list, in order, its guard.
pub open spec fn stage_conds(stmts: Seq<Loc<Statement>>) -> Seq<Option<Loc<Expression>>>
    decreases stmts.len(),
{
    if stmts.len() == 0 {
        Seq::empty()
    } else {
        let rest = stage_conds(stmts.drop_last());
        match stmts.last().inner {
            Statement::PipelineRegMarker(cond) => rest.push(cond),
            _ => rest,
        }
    }
}

/// The guards of the markers are what the markers hold.
pub proof fn lemma_stage_conds(stmts: Seq<Loc<Statement>>)
    ensures
        stage_conds(stmts).len() == stage_guards(stmts).len(),
        forall|k: int| 0 <= k < stage_guards(stmts).len() ==>
            (#[trigger] stage_conds(stmts)[k]) is Some == stage_guards(stmts)[k],
    decreases stmts.len(),
{
    if stmts.len() > 0 {
        lemma_stage_conds(stmts.drop_last());
    }
}

/// The guards of a prefix of a statement list are a prefix of its guards.
pub proof fn lemma_stage_conds_prefix(stmts: Seq<Loc<Statement>>, p: int)
    requires
        0 <= p <= stmts.len(),
    ensures
        stage_conds(stmts.subrange(0, p)).len() <= stage_conds(stmts).len(),
        forall|k: int| 0 <= k < stage_conds(stmts.subrange(0, p)).len() ==>
            stage_conds(stmts)[k] == #[trigger] stage_conds(stmts.subrange(0, p))[k],
    decreases stmts.len() - p,
{
    if p < stmts.len() {
        lemma_stage_conds_prefix(stmts, p + 1);
        let longer = stmts.subrange(0, p + 1);
        assert(longer.drop_last() =~= stmts.subrange(0, p));
        let a = stage_conds(stmts.subrange(0, p));
        let b = stage_conds(longer);
        assert forall|k: int| 0 <= k < a.len() implies stage_conds(stmts)[k] == #[trigger] a[k] by {
            assert(b[k] == a[k]);
        }
    } else {
        assert(stmts.subrange(0, p) =~= stmts);
    }
}

/// Whether the stage marker `i` or one after it has a guard.
pub open spec fn guarded_from(guards: Seq<bool>, i: int) -> bool {
    exists|j: int| i <= j < guards.len() && #[trigger] guards[j]
}

/// A statement list has at most as many stage markers as statements.
pub proof fn lemma_stage_count_bound(stmts: Seq<Loc<Statement>>)
    ensures
        stage_guards(stmts).len() <= stmts.len(),
    decreases stmts.len(),
{
    if stmts.len() > 0 {
        lemma_stage_count_bound(stmts.drop_last());
    }
}

/// The guards of a prefix of a statement list are a prefix of its guards.
pub proof fn lemma_stage_guards_prefix(stmts: Seq<Loc<Statement>>, p: int)
    requires
        0 <= p <= stmts.len(),
    ensures
        stage_guards(stmts.subrange(0, p)).len() <= stage_guards(stmts).len(),
        forall|k: int| 0 <= k < stage_guards(stmts.subrange(0, p)).len() ==>
            stage_guards(stmts)[k] == #[trigger] stage_guards(stmts.subrange(0, p))[k],
    decreases stmts.len() - p,
{
    if p < stmts.len() {
        lemma_stage_guards_prefix(stmts, p + 1);
        let longer = stmts.subrange(0, p + 1);
        assert(longer.drop_last() =~= stmts.subrange(0, p));
        let a = stage_guards(stmts.subrange(0, p));
        let b = stage_guards(longer);
        assert(a.len() <= b.len());
        assert forall|k: int| 0 <= k < a.len() implies stage_guards(stmts)[k] == #[trigger] a[k] by {
            assert(b[k] == a[k]);
        }
    } else {
        assert(stmts.subrange(0, p) =~= stmts);
    }
}

/// How many stage markers a statement list holds.
pub fn count_stages(stmts: &Vec<Loc<Statement>>) -> (r: usize)
    ensures
        r == stage_guards(stmts@).len(),
{
    let mut n: usize = 0;
    let mut p: usize = 0;
    while p < stmts.len()
        invariant
            0 <= p <= stmts@.len(),
            n == stage_guards(stmts@.subrange(0, p as int)).len(),
            n <= p,
        decreases stmts@.len() - p,
    {
        assert(stmts@.subrange(0, p + 1).drop_last() =~= stmts@.subrange(0, p as int));
        match &stmts[p].inner {
            Statement::PipelineRegMarker(_) => { n += 1; },
            _ => {},
        }
        p += 1;
    }
    assert(stmts@.subrange(0, p as int) =~= stmts@);
    n
}

/// Reserves a name for the enable signal of each stage that needs one: a stage needs
/// one when its own marker or a later one has a guard. Which stages need one depends
/// on what follows them, so the statements are scanned from the last to the first.
pub fn enable_slots(stmts: &Vec<Loc<Statement>>, ids: &mut IdTracker) -> (slots: Vec<Option<ValueName>>)
    requires
        old(ids).next_id + stmts@.len() <= u64::MAX,
    ensures
        slots@.len() == stage_guards(stmts@).len(),
        forall|i: int| 0 <= i < slots@.len() ==>
            (#[trigger] slots@[i] is Some) == guarded_from(stage_guards(stmts@), i),
        old(ids).next_id <= final(ids).next_id <= old(ids).next_id + stmts@.len(),
        forall|i: int| 0 <= i < slots@.len() && (#[trigger] slots@[i]) is Some ==> slots@[i]->Some_0 is Expr
            && old(ids).next_id <= slots@[i]->Some_0->Expr_0 < final(ids).next_id,
        forall|i: int, j: int| 0 <= i < j < slots@.len() && (#[trigger] slots@[i]) is Some && (#[trigger] slots@[j]) is Some
            ==> slots@[i]->Some_0->Expr_0 != slots@[j]->Some_0->Expr_0,
{
    let n = count_stages(stmts);
    let ghost guards = stage_guards(stmts@);
    let mut slots: Vec<Option<ValueName>> = Vec::new();
    let mut k: usize = 0;
    while k < n
        invariant
            0 <= k <= n,
            slots@.len() == k,
            forall|i: int| 0 <= i < k ==> #[trigger] slots@[i] is None,
        decreases n - k,
    {
        slots.push(None);
        k += 1;
    }
    let mut has_enable = false;
    let mut p: usize = stmts.len();
    assert(stmts@.subrange(0, p as int) =~= stmts@);
    let mut stage: usize = n;
    while p > 0
        invariant
            0 <= p <= stmts@.len(),
            guards == stage_guards(stmts@),
            n == guards.len(),
            slots@.len() == n,
            stage == stage_guards(stmts@.subrange(0, p as int)).len(),
            stage <= n,
            old(ids).next_id <= ids.next_id,
            old(ids).next_id + stmts@.len() <= u64::MAX,
            ids.next_id + p <= old(ids).next_id + stmts@.len(),
            has_enable == guarded_from(guards, stage as int),
            forall|i: int| stage <= i < n ==> (#[trigger] slots@[i] is Some) == guarded_from(guards, i),
            forall|i: int| 0 <= i < stage ==> #[trigger] slots@[i] is None,
            forall|i: int| stage <= i < n && (#[trigger] slots@[i]) is Some ==> slots@[i]->Some_0 is Expr
                && old(ids).next_id <= slots@[i]->Some_0->Expr_0 < ids.next_id,
            forall|i: int, j: int| stage <= i < j < n && (#[trigger] slots@[i]) is Some && (#[trigger] slots@[j]) is Some
                ==> slots@[i]->Some_0->Expr_0 != slots@[j]->Some_0->Expr_0,
        decreases p,
    {
        let q = p - 1;
        proof {
            lemma_stage_guards_prefix(stmts@, p as int);
            lemma_stage_guards_prefix(stmts@, q as int);
            assert(stmts@.subrange(0, p as int).drop_last() =~= stmts@.subrange(0, q as int));
        }
        match &stmts[q].inner {
            Statement::PipelineRegMarker(cond) => {
                assert(stage_guards(stmts@.subrange(0, p as int))
                    == stage_guards(stmts@.subrange(0, q as int)).push(cond.is_some()));
                let s = stage - 1;
                assert(stage_guards(stmts@.subrange(0, p as int))[s as int] == cond.is_some());
                assert(guards[s as int] == cond.is_some());
                if cond.is_some() {
                    has_enable = true;
                }
                assert(has_enable == guarded_from(guards, s as int)) by {
                    if guarded_from(guards, s as int) && !guards[s as int] {
                        let j = choose|j: int| s <= j < guards.len() && #[trigger] guards[j];
                        assert(guarded_from(guards, stage as int));
                    }
                    if guards[s as int] {
                        assert(guards[s as int]);
                    }
                }
                let ghost old_slots = slots@;
                if has_enable {
                    let id = ids.next();
                    slots.set(s, Some(ValueName::Expr(id)));
                }
                assert forall|i: int| s <= i < n implies (#[trigger] slots@[i] is Some) == guarded_from(guards, i) by {
                    if i > s {
                        assert(slots@[i] == old_slots[i]);
                    }
                }
                assert forall|i: int| 0 <= i < s implies #[trigger] slots@[i] is None by {
                    assert(slots@[i] == old_slots[i]);
                }
                assert forall|i: int| s <= i < n && (#[trigger] slots@[i]) is Some implies slots@[i]->Some_0 is Expr
                    && old(ids).next_id <= slots@[i]->Some_0->Expr_0 < ids.next_id by {
                    if i > s {
                        assert(slots@[i] == old_slots[i]);
                    }
                }
                assert forall|i: int, j: int| s <= i < j < n && (#[trigger] slots@[i]) is Some && (#[trigger] slots@[j]) is Some
                    implies slots@[i]->Some_0->Expr_0 != slots@[j]->Some_0->Expr_0 by {
                    assert(slots@[j] == old_slots[j]);
                    if i > s {
                        assert(slots@[i] == old_slots[i]);
                    }
                }
                stage = s;
            },
            _ => {},
        }
        p = q;
    }
    slots
}

} // verus!
