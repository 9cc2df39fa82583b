use vstd::prelude::*;

use crate::error::{Error, InternalError};
use crate::mir::{Binding, Operator, Register, SignalKey, Statement, Type, ValueName};

verus! {

/// Allocator of fresh identifiers: each one it hands out is larger than all before.
#[derive(Debug)]
pub struct IdTracker {
    pub next_id: u64,
}

impl IdTracker {
    pub fn new() -> (r: IdTracker)
        ensures
            r.next_id == 0,
    {
        IdTracker { next_id: 0 }
    }

    /// A fresh identifier.
    pub fn next(&mut self) -> (r: u64)
        requires
            old(self).next_id < u64::MAX,
        ensures
            r == old(self).next_id,
            final(self).next_id == old(self).next_id + 1,
    {
        let r = self.next_id;
        self.next_id = self.next_id + 1;
        r
    }
}

/// The key of an optional signal.
pub open spec fn opt_key(o: Option<ValueName>) -> Option<SignalKey> {
    match o {
        Some(n) => Some(n.key()),
        None => None,
    }
}

/// Whether `s` binds `target` to `op` applied to operands with the given keys.
pub open spec fn is_binding(s: Statement, target: SignalKey, op: Operator, operands: Seq<SignalKey>) -> bool {
    match s {
        Statement::Binding(b) => b.name.key() == target && b.operator == op
            && b.operands@.map_values(|v: ValueName| v.key()) == operands,
        _ => false,
    }
}

/// Whether a binding or register has the boolean type.
pub open spec fn is_boolean(s: Statement) -> bool {
    match s {
        Statement::Binding(b) => b.ty == Type::Bool,
        Statement::Register(r) => r.ty == Type::Bool,
        _ => false,
    }
}

/// Whether a statement, where it is a register, is clocked by `clock` and has no reset.
pub open spec fn clocked_by(s: Statement, clock: SignalKey) -> bool {
    match s {
        Statement::Register(r) => r.clock.key() == clock && r.reset is None,
        _ => true,
    }
}

/// Whether `s` is a register named `target`, clocked by `clock`, without reset, whose
/// next value is `next`.
pub open spec fn is_register(s: Statement, target: SignalKey, clock: SignalKey, next: SignalKey) -> bool {
    match s {
        Statement::Register(r) => r.name.key() == target && r.clock.key() == clock
            && r.value.key() == next && r.reset is None,
        _ => false,
    }
}

/// Whether a stage needs an enable signal: it or a stage after it has a local condition.
#[verifier::opaque]
pub open spec fn needs_enable(conds: Seq<Option<ValueName>>, i: int) -> bool {
    exists|j: int| i <= j < conds.len() && #[trigger] conds[j] is Some
}

/// The enable signal of the stage after stage `i`, if that stage has one.
pub open spec fn downstream_enable(conds: Seq<Option<ValueName>>, slots: Seq<Option<ValueName>>, i: int) -> Option<SignalKey> {
    if i + 1 < conds.len() && needs_enable(conds, i + 1) {
        opt_key(slots[i + 1])
    } else {
        None
    }
}

/// Whether `s` defines the enable signal `e` of a stage from the stage's local condition
/// and the next stage's enable signal: an alias of the local condition where the next
/// stage has no enable signal, an alias of the next stage's signal where there is no
/// local condition, and the conjunction of both otherwise.
pub open spec fn enable_definition(s: Statement, e: SignalKey, local: Option<SignalKey>, down: Option<SignalKey>) -> bool {
    match (local, down) {
        (Some(l), None) => is_binding(s, e, Operator::Alias, seq![l]),
        (None, Some(d)) => is_binding(s, e, Operator::Alias, seq![d]),
        (Some(l), Some(d)) => is_binding(s, e, Operator::LogicalAnd, seq![l, d]),
        (None, None) => false,
    }
}

/// Whether `s` defines the enable signal of stage `i`.
#[verifier::opaque]
pub open spec fn defines_enable(s: Statement, conds: Seq<Option<ValueName>>, slots: Seq<Option<ValueName>>, i: int) -> bool {
    match slots[i] {
        Some(e) => enable_definition(s, e.key(), opt_key(conds[i]), downstream_enable(conds, slots, i)),
        None => false,
    }
}

fn bool_type() -> (r: Type)
    ensures
        r == Type::Bool,
{
    Type::Bool
}

fn one_operand(a: ValueName) -> (r: Vec<ValueName>)
    ensures
        r@.map_values(|v: ValueName| v.key()) == seq![a.key()],
{
    let ghost k = a.key();
    let mut r: Vec<ValueName> = Vec::new();
    r.push(a);
    assert(r@.map_values(|v: ValueName| v.key()) =~= seq![k]);
    r
}

fn two_operands(a: ValueName, b: ValueName) -> (r: Vec<ValueName>)
    ensures
        r@.map_values(|v: ValueName| v.key()) == seq![a.key(), b.key()],
{
    let ghost ka = a.key();
    let ghost kb = b.key();
    let mut r: Vec<ValueName> = Vec::new();
    r.push(a);
    r.push(b);
    assert(r@.map_values(|v: ValueName| v.key()) =~= seq![ka, kb]);
    r
}

/// A combinational boolean binding without a source location.
fn bool_binding(name: ValueName, operator: Operator, operands: Vec<ValueName>) -> (r: Statement)
    ensures
        is_binding(r, name.key(), operator, operands@.map_values(|v: ValueName| v.key())),
        is_boolean(r),
{
    Statement::Binding(Binding { name, operator, operands, ty: bool_type(), loc: None })
}

/// The definition of the enable signal `name` of a stage with the given local condition,
/// where the next stage's enable signal is `down`.
fn enable_binding(name: &ValueName, local: &Option<ValueName>, down: &Option<ValueName>) -> (r: Statement)
    requires
        local is Some || down is Some,
    ensures
        enable_definition(r, name.key(), opt_key(*local), opt_key(*down)),
        r is Binding,
        is_boolean(r),
{
    match (local, down) {
        (Some(l), None) => bool_binding(name.clone(), Operator::Alias, one_operand(l.clone())),
        (None, Some(d)) => bool_binding(name.clone(), Operator::Alias, one_operand(d.clone())),
        (Some(l), Some(d)) => bool_binding(name.clone(), Operator::LogicalAnd, two_operands(l.clone(), d.clone())),
        (None, None) => bool_binding(name.clone(), Operator::Nop, Vec::new()),
    }
}

proof fn lemma_needs_enable_step(conds: Seq<Option<ValueName>>, i: int)
    requires
        0 <= i < conds.len(),
    ensures
        needs_enable(conds, i) == (conds[i] is Some || (i + 1 < conds.len() && needs_enable(conds, i + 1))),
{
    reveal(needs_enable);
    if needs_enable(conds, i) && conds[i] is None {
        let j = choose|j: int| i <= j < conds.len() && #[trigger] conds[j] is Some;
        assert(conds[j] is Some);
        assert(needs_enable(conds, i + 1));
    }
    if i + 1 < conds.len() && needs_enable(conds, i + 1) {
        let j = choose|j: int| i + 1 <= j < conds.len() && #[trigger] conds[j] is Some;
        assert(conds[j] is Some);
    }
    if conds[i] is Some {
        assert(conds[i] is Some);
    }
}

/// Whether some statement from index `start` on defines the enable signal of stage `j`.
#[verifier::opaque]
pub open spec fn enable_defined(stmts: Seq<Statement>, start: int, conds: Seq<Option<ValueName>>, slots: Seq<Option<ValueName>>, j: int) -> bool {
    exists|k: int| start <= k < stmts.len() && defines_enable(#[trigger] stmts[k], conds, slots, j)
}

/// Whether statement `k` defines the enable signal of some stage from `lo` on that
/// needs one.
#[verifier::opaque]
pub open spec fn defines_some_enable(stmts: Seq<Statement>, k: int, conds: Seq<Option<ValueName>>, slots: Seq<Option<ValueName>>, lo: int) -> bool {
    exists|j: int| lo <= j < slots.len() && needs_enable(conds, j) && #[trigger] defines_enable(stmts[k], conds, slots, j)
}

/// A definition of the enable signal of stage `i` is a binding of the stage's slot.
pub proof fn lemma_defines_target(s: Statement, conds: Seq<Option<ValueName>>, slots: Seq<Option<ValueName>>, i: int)
    requires
        defines_enable(s, conds, slots, i),
    ensures
        s is Binding && slots[i] is Some && s->Binding_0.name.key() == slots[i]->Some_0.key(),
{
    reveal(defines_enable);
}

/// Where no stage needs an enable signal, a list whose statements from `start` on each
/// define one has no statements from `start` on.
pub proof fn lemma_no_enables(stmts: Seq<Statement>, start: int, conds: Seq<Option<ValueName>>, slots: Seq<Option<ValueName>>)
    requires
        0 <= start <= stmts.len(),
        forall|k: int| start <= k < stmts.len() ==> defines_some_enable(stmts, k, conds, slots, 0),
        forall|i: int| 0 <= i < slots.len() ==> !needs_enable(conds, i),
    ensures
        stmts.len() == start,
{
    if stmts.len() > start {
        reveal(defines_some_enable);
        assert(defines_some_enable(stmts, start, conds, slots, 0));
    }
}

/// Defines the enable signal of every stage that needs one, from the last stage to the
/// first: each stage's signal depends on the next stage's. `slots` holds, for each
/// stage, the name reserved for its enable signal. The definitions are appended in that
/// order, one for each stage that needs one and nothing else.
pub fn synthesize_enables(
    local_conds: &Vec<Option<ValueName>>,
    slots: &Vec<Option<ValueName>>,
    statements: &mut Vec<Statement>,
)
    requires
        local_conds@.len() == slots@.len(),
        forall|i: int| 0 <= i < slots@.len() && needs_enable(local_conds@, i) ==> slots@[i] is Some,
        forall|i: int, j: int| 0 <= i < j < slots@.len() && (#[trigger] slots@[i]) is Some && (#[trigger] slots@[j]) is Some
            ==> slots@[i]->Some_0.key() != slots@[j]->Some_0.key(),
    ensures
        forall|k1: int, k2: int, i: int| old(statements)@.len() <= k1 < final(statements)@.len()
            && old(statements)@.len() <= k2 < final(statements)@.len() && 0 <= i < slots@.len()
            && #[trigger] defines_enable(final(statements)@[k1], local_conds@, slots@, i)
            && #[trigger] defines_enable(final(statements)@[k2], local_conds@, slots@, i) ==> k1 == k2,
        old(statements)@.len() <= final(statements)@.len(),
        final(statements)@.subrange(0, old(statements)@.len() as int) == old(statements)@,
        forall|k: int| old(statements)@.len() <= k < final(statements)@.len() ==>
            (#[trigger] final(statements)@[k]) is Binding && is_boolean(final(statements)@[k]),
        forall|k: int| old(statements)@.len() <= k < final(statements)@.len() ==>
            defines_some_enable(final(statements)@, k, local_conds@, slots@, 0),
        forall|i: int| 0 <= i < slots@.len() && needs_enable(local_conds@, i) ==>
            enable_defined(final(statements)@, old(statements)@.len() as int, local_conds@, slots@, i),
{
    let ghost conds = local_conds@;
    let ghost start = statements@.len();
    let mut current_enable: Option<ValueName> = None;
    let mut i: usize = slots.len();
    while i > 0
        invariant
            0 <= i <= slots@.len(),
            conds == local_conds@,
            conds.len() == slots@.len(),
            forall|j: int| 0 <= j < slots@.len() && needs_enable(conds, j) ==> slots@[j] is Some,
            start <= statements@.len(),
            statements@.subrange(0, start as int) == old(statements)@,
            forall|k: int| start <= k < statements@.len() ==>
                (#[trigger] statements@[k]) is Binding && is_boolean(statements@[k]),
            forall|i: int, j: int| 0 <= i < j < slots@.len() && (#[trigger] slots@[i]) is Some && (#[trigger] slots@[j]) is Some
                ==> slots@[i]->Some_0.key() != slots@[j]->Some_0.key(),
            forall|k1: int, k2: int| start <= k1 < k2 < statements@.len()
                ==> (#[trigger] statements@[k1])->Binding_0.name.key() != (#[trigger] statements@[k2])->Binding_0.name.key(),
            opt_key(current_enable) == (if i < slots@.len() && needs_enable(conds, i as int) {
                opt_key(slots@[i as int])
            } else {
                None
            }),
            forall|k: int| start <= k < statements@.len() ==>
                defines_some_enable(statements@, k, conds, slots@, i as int),
            forall|j: int| i <= j < slots@.len() && needs_enable(conds, j) ==>
                enable_defined(statements@, start as int, conds, slots@, j),
        decreases i,
    {
        let idx = i - 1;
        let ghost before = statements@;
        proof {
            lemma_needs_enable_step(conds, idx as int);
        }
        assert(downstream_enable(conds, slots@, idx as int) == opt_key(current_enable));
        if local_conds[idx].is_some() || current_enable.is_some() {
            let name = match &slots[idx] {
                Some(name) => name,
                None => { proof { assert(false); } unreached() },
            };
            let stmt = enable_binding(name, &local_conds[idx], &current_enable);
            statements.push(stmt);
            let ghost last = statements@.len() - 1;
            assert(defines_enable(statements@[last], conds, slots@, idx as int)) by {
                reveal(defines_enable);
            }
            current_enable = Some(name.clone());
            assert forall|k: int| start <= k < statements@.len() implies
                defines_some_enable(statements@, k, conds, slots@, idx as int) by {
                reveal(defines_some_enable);
                if k < last {
                    assert(statements@[k] == before[k]);
                    assert(defines_some_enable(before, k, conds, slots@, i as int));
                    let j = choose|j: int| i <= j < slots@.len() && needs_enable(conds, j)
                        && #[trigger] defines_enable(before[k], conds, slots@, j);
                    assert(defines_enable(statements@[k], conds, slots@, j));
                } else {
                    assert(defines_enable(statements@[k], conds, slots@, idx as int));
                }
            }
            assert forall|j: int| idx <= j < slots@.len() && needs_enable(conds, j) implies
                enable_defined(statements@, start as int, conds, slots@, j) by {
                reveal(enable_defined);
                if j > idx {
                    assert(enable_defined(before, start as int, conds, slots@, j));
                    let k = choose|k: int| start <= k < before.len()
                        && defines_enable(#[trigger] before[k], conds, slots@, j);
                    assert(statements@[k] == before[k]);
                    assert(defines_enable(statements@[k], conds, slots@, j));
                } else {
                    assert(defines_enable(statements@[last], conds, slots@, j));
                }
            }
            assert(statements@.subrange(0, start as int) =~= before.subrange(0, start as int));
            assert forall|k1: int, k2: int| start <= k1 < k2 < statements@.len()
                implies (#[trigger] statements@[k1])->Binding_0.name.key() != (#[trigger] statements@[k2])->Binding_0.name.key() by {
                if k2 == last {
                    assert(statements@[k1] == before[k1]);
                    assert(defines_some_enable(before, k1, conds, slots@, i as int));
                    reveal(defines_some_enable);
                    let j = choose|j: int| i <= j < slots@.len() && needs_enable(conds, j)
                        && #[trigger] defines_enable(before[k1], conds, slots@, j);
                    lemma_defines_target(before[k1], conds, slots@, j);
                    lemma_defines_target(statements@[last], conds, slots@, idx as int);
                } else {
                    assert(statements@[k1] == before[k1]);
                    assert(statements@[k2] == before[k2]);
                }
            }
        } else {
            assert forall|j: int| idx <= j < slots@.len() && needs_enable(conds, j) implies
                enable_defined(statements@, start as int, conds, slots@, j) by {
                assert(j != idx);
            }
            assert forall|k: int| start <= k < statements@.len() implies
                defines_some_enable(statements@, k, conds, slots@, idx as int) by {
                reveal(defines_some_enable);
                assert(defines_some_enable(statements@, k, conds, slots@, i as int));
                let j = choose|j: int| i <= j < slots@.len() && needs_enable(conds, j)
                    && #[trigger] defines_enable(statements@[k], conds, slots@, j);
                assert(idx <= j);
            }
        }
        i = idx;
    }
    assert forall|k1: int, k2: int, i: int| old(statements)@.len() <= k1 < statements@.len()
        && old(statements)@.len() <= k2 < statements@.len() && 0 <= i < slots@.len()
        && #[trigger] defines_enable(statements@[k1], local_conds@, slots@, i)
        && #[trigger] defines_enable(statements@[k2], local_conds@, slots@, i) implies k1 == k2 by {
        lemma_defines_target(statements@[k1], local_conds@, slots@, i);
        lemma_defines_target(statements@[k2], local_conds@, slots@, i);
    }
}

/// Whether `c` is the combined validity condition of a stage boundary: the local
/// condition alone, the previous stage's valid signal alone, or the target of a
/// conjunction of both from index `start` of `stmts` on.
pub open spec fn combines_validity(stmts: Seq<Statement>, start: int, c: SignalKey, local: Option<SignalKey>, prev: Option<SignalKey>) -> bool {
    match (local, prev) {
        (Some(l), None) => c == l,
        (None, Some(p)) => c == p,
        (Some(l), Some(p)) => exists|k: int| start <= k < stmts.len()
            && is_binding(#[trigger] stmts[k], c, Operator::LogicalAnd, seq![l, p]),
        (None, None) => false,
    }
}

/// Whether, from index `start` of `stmts` on, `target` is a register clocked by `clock`
/// that delays the combined validity condition of a stage boundary by one cycle.
#[verifier::opaque]
pub open spec fn latches_validity(stmts: Seq<Statement>, start: int, clock: SignalKey, local: Option<SignalKey>, prev: Option<SignalKey>, target: SignalKey) -> bool {
    exists|k: int, c: SignalKey| start <= k < stmts.len()
        && #[trigger] is_register(stmts[k], target, clock, c)
        && combines_validity(stmts, start, c, local, prev)
}

/// Whether a signal name is anonymous with a number in `lo..hi`.
pub open spec fn fresh_between(o: Option<ValueName>, lo: int, hi: int) -> bool {
    match o {
        Some(ValueName::Expr(id)) => lo <= id < hi,
        _ => false,
    }
}

proof fn lemma_latches_extend(s1: Seq<Statement>, s2: Seq<Statement>, start: int, clock: SignalKey, local: Option<SignalKey>, prev: Option<SignalKey>, target: SignalKey)
    requires
        0 <= start,
        s1.len() <= s2.len(),
        forall|k: int| 0 <= k < s1.len() ==> s2[k] == s1[k],
        latches_validity(s1, start, clock, local, prev, target),
    ensures
        latches_validity(s2, start, clock, local, prev, target),
{
    reveal(latches_validity);
    let (k, c) = choose|k: int, c: SignalKey| start <= k < s1.len()
        && #[trigger] is_register(s1[k], target, clock, c)
        && combines_validity(s1, start, c, local, prev);
    assert(is_register(s2[k], target, clock, c));
    if local is Some && prev is Some {
        let k2 = choose|k2: int| start <= k2 < s1.len()
            && is_binding(#[trigger] s1[k2], c, Operator::LogicalAnd, seq![local->Some_0, prev->Some_0]);
        assert(s2[k2] == s1[k2]);
    }
    assert(combines_validity(s2, start, c, local, prev));
}

/// Defines the valid signal of every stage, from the first to the last. Stage 0 is
/// always valid. Each later stage's signal is the conjunction of the previous stage's
/// local condition and valid signal, as far as they exist, delayed by one register:
/// validity travels with the data it describes.
pub fn synthesize_valids(
    local_conds: &Vec<Option<ValueName>>,
    clock: &ValueName,
    ids: &mut IdTracker,
    statements: &mut Vec<Statement>,
) -> (valid: Vec<Option<ValueName>>)
    requires
        old(ids).next_id + 2 * local_conds@.len() <= u64::MAX,
    ensures
        (forall|j: int| 0 <= j < local_conds@.len() ==> #[trigger] local_conds@[j] is None)
            ==> final(statements)@ == old(statements)@ && forall|j: int| 0 <= j < valid@.len() ==> #[trigger] valid@[j] is None,
        forall|k: int| old(statements)@.len() <= k < final(statements)@.len()
            ==> clocked_by(#[trigger] final(statements)@[k], clock.key()) && is_boolean(final(statements)@[k])
                && (final(statements)@[k] is Register ==> final(statements)@[k]->Register_0.name is Expr),
        old(statements)@.len() <= final(statements)@.len(),
        final(statements)@.subrange(0, old(statements)@.len() as int) == old(statements)@,
        old(ids).next_id <= final(ids).next_id <= old(ids).next_id + 2 * local_conds@.len(),
        valid@.len() == local_conds@.len() + 1,
        valid@[0] is None,
        forall|i: int| 0 <= i < local_conds@.len() ==>
            (#[trigger] valid@[i + 1] is Some) == (local_conds@[i] is Some || valid@[i] is Some),
        forall|i: int| 0 <= i < local_conds@.len() && #[trigger] valid@[i + 1] is Some ==>
            latches_validity(final(statements)@, old(statements)@.len() as int, clock.key(),
                opt_key(local_conds@[i]), opt_key(valid@[i]), valid@[i + 1]->Some_0.key())
            && fresh_between(valid@[i + 1], old(ids).next_id as int, final(ids).next_id as int),
{
    let ghost start = statements@.len();
    let ghost first_id = ids.next_id;
    let mut valid: Vec<Option<ValueName>> = Vec::new();
    valid.push(None);
    let mut last_cond: Option<ValueName> = None;
    let mut i: usize = 0;
    while i < local_conds.len()
        invariant
            0 <= i <= local_conds@.len(),
            first_id == old(ids).next_id,
            first_id <= ids.next_id <= first_id + 2 * i,
            first_id + 2 * local_conds@.len() <= u64::MAX,
            start == old(statements)@.len(),
            (forall|j: int| 0 <= j < i ==> #[trigger] local_conds@[j] is None)
                ==> statements@ == old(statements)@ && forall|j: int| 0 <= j <= i ==> #[trigger] valid@[j] is None,
            start <= statements@.len(),
            statements@.subrange(0, start as int) == old(statements)@,
            forall|k: int| start <= k < statements@.len()
                ==> clocked_by(#[trigger] statements@[k], clock.key()) && is_boolean(statements@[k])
                    && (statements@[k] is Register ==> statements@[k]->Register_0.name is Expr),
            valid@.len() == i + 1,
            valid@[0] is None,
            opt_key(last_cond) == opt_key(valid@[i as int]),
            last_cond is Some ==> fresh_between(last_cond, first_id as int, ids.next_id as int),
            forall|j: int| 0 <= j < i ==>
                (#[trigger] valid@[j + 1] is Some) == (local_conds@[j] is Some || valid@[j] is Some),
            forall|j: int| 0 <= j < i && #[trigger] valid@[j + 1] is Some ==>
                latches_validity(statements@, start as int, clock.key(),
                    opt_key(local_conds@[j]), opt_key(valid@[j]), valid@[j + 1]->Some_0.key())
                && fresh_between(valid@[j + 1], first_id as int, ids.next_id as int),
        decreases local_conds@.len() - i,
    {
        let ghost before = statements@;
        let ghost before_valid = valid@;
        let ghost ids_before = ids.next_id;
        let cond_name: Option<ValueName> = match (&local_conds[i], &last_cond) {
            (Some(local), Some(prev)) => {
                let new_name = ValueName::Expr(ids.next());
                statements.push(bool_binding(
                    new_name.clone(),
                    Operator::LogicalAnd,
                    two_operands(local.clone(), prev.clone()),
                ));
                let ghost k2 = statements@.len() - 1;
                assert(is_binding(statements@[k2], new_name.key(), Operator::LogicalAnd,
                    seq![local.key(), prev.key()]));
                Some(new_name)
            },
            (Some(local), None) => Some(local.clone()),
            (None, Some(prev)) => Some(prev.clone()),
            (None, None) => None,
        };
        assert(cond_name is Some ==> combines_validity(statements@, start as int, cond_name->Some_0.key(),
            opt_key(local_conds@[i as int]), opt_key(valid@[i as int])));
        let ghost mid = statements@;
        let ghost cond_key = opt_key(cond_name);
        match cond_name {
            Some(cond) => {
                let new_name = ValueName::Expr(ids.next());
                statements.push(Statement::Register(Register {
                    name: new_name.clone(),
                    ty: bool_type(),
                    clock: clock.clone(),
                    reset: None,
                    value: cond,
                    traced: None,
                    loc: None,
                }));
                let ghost k = statements@.len() - 1;
                assert(is_register(statements@[k], new_name.key(), clock.key(), cond_key->Some_0));
                proof {
                    lemma_latches_extend_binding(mid, statements@, start as int, cond_key->Some_0,
                        opt_key(local_conds@[i as int]), opt_key(valid@[i as int]));
                }
                assert(latches_validity(statements@, start as int, clock.key(),
                    opt_key(local_conds@[i as int]), opt_key(valid@[i as int]), new_name.key())) by {
                    reveal(latches_validity);
                }
                last_cond = Some(new_name);
            },
            None => {},
        }
        valid.push(match &last_cond {
            Some(v) => Some(v.clone()),
            None => None,
        });
        assert forall|j: int| 0 <= j < i && #[trigger] valid@[j + 1] is Some implies
            latches_validity(statements@, start as int, clock.key(),
                opt_key(local_conds@[j]), opt_key(valid@[j]), valid@[j + 1]->Some_0.key())
            && fresh_between(valid@[j + 1], first_id as int, ids.next_id as int) by {
            assert(valid@[j + 1] == before_valid[j + 1]);
            assert(valid@[j] == before_valid[j]);
            lemma_latches_extend(before, statements@, start as int, clock.key(),
                opt_key(local_conds@[j]), opt_key(valid@[j]), valid@[j + 1]->Some_0.key());
        }
        assert(statements@.subrange(0, start as int) =~= before.subrange(0, start as int));
        i += 1;
    }
    valid
}

proof fn lemma_latches_extend_binding(s1: Seq<Statement>, s2: Seq<Statement>, start: int, c: SignalKey, local: Option<SignalKey>, prev: Option<SignalKey>)
    requires
        0 <= start,
        s1.len() <= s2.len(),
        forall|k: int| 0 <= k < s1.len() ==> s2[k] == s1[k],
        combines_validity(s1, start, c, local, prev),
    ensures
        combines_validity(s2, start, c, local, prev),
{
    if local is Some && prev is Some {
        let k2 = choose|k2: int| start <= k2 < s1.len()
            && is_binding(#[trigger] s1[k2], c, Operator::LogicalAnd, seq![local->Some_0, prev->Some_0]);
        assert(s2[k2] == s1[k2]);
    }
}

/// Enable signals form a chain without redundant conjunctions: a stage without a local
/// condition defines its enable signal as an alias of the next stage's, a conjunction
/// is only ever made at a stage with a local condition, and no stage after the last
/// guarded one has an enable signal at all.
pub proof fn lemma_enable_chain(s: Statement, conds: Seq<Option<ValueName>>, slots: Seq<Option<ValueName>>, i: int)
    requires
        conds.len() == slots.len(),
        0 <= i < conds.len(),
        defines_enable(s, conds, slots, i),
    ensures
        conds[i] is None ==> downstream_enable(conds, slots, i) is Some
            && is_binding(s, slots[i]->Some_0.key(), Operator::Alias, seq![downstream_enable(conds, slots, i)->Some_0]),
        (s is Binding && s->Binding_0.operator == Operator::LogicalAnd) ==> conds[i] is Some,
{
    reveal(defines_enable);
    reveal(needs_enable);
    assert(slots[i] is Some);
    if conds[i] is None {
        assert(downstream_enable(conds, slots, i) is Some);
    }
}

/// No stage after the last guarded one needs an enable signal: such stages can never
/// stall.
pub proof fn lemma_unguarded_tail_never_stalls(conds: Seq<Option<ValueName>>, i: int)
    requires
        0 <= i <= conds.len(),
        forall|j: int| i <= j < conds.len() ==> #[trigger] conds[j] is None,
    ensures
        !needs_enable(conds, i),
{
    reveal(needs_enable);
}

} // verus!
