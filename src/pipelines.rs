use vstd::prelude::*;

use crate::error::{Error, InternalError};
use crate::hir::{pattern_names, Binding, Block, ExprKind, Expression, Pattern, Statement, TypeSpec};
use crate::location::{Loc, Span};
use crate::mir;
use crate::mir::{same_type, Operator, SignalKey, SourceKey, ValueName, ValueNameSource};
use crate::name::NameID;
use crate::signals::{
    clocked_by, defines_some_enable, fresh_between, is_boolean, lemma_no_enables, combines_validity, defines_enable, enable_defined, is_binding, is_register, latches_validity,
    needs_enable, opt_key, synthesize_enables, synthesize_valids, IdTracker,
};
use crate::stages::{
    enable_slots, guarded_from, lemma_stage_conds, lemma_stage_conds_prefix, lemma_stage_count_bound,
    lemma_stage_guards_prefix, stage_conds, stage_guards,
};
use crate::substitution::{
    carried, initial_substitution, advanced, lemma_carried_filter, lemma_carried_prefix, PipelineRegister, Substitution, SubstitutionKey, Substitutions,
};
use crate::availability::availability;
use crate::liveness::{collect_expr_refs, collect_statement_refs, expr_refs, statement_refs};

verus! {

/// The resolved type of a variable and whether it is a port.
#[derive(Debug)]
pub struct TypeInfo {
    pub name: u64,
    pub ty: mir::Type,
    pub is_port: bool,
}

/// The types of the variables of a unit, as the type checker resolved them.
#[derive(Debug)]
pub struct TypeTable {
    pub entries: Vec<TypeInfo>,
}

impl TypeTable {
    /// Whether variable `name` is a port, if its type is known: as the first entry for
    /// it says.
    pub open spec fn port_of(&self, name: u64) -> Option<bool> {
        first_port(self.entries@, name)
    }

    /// The type of variable `name` and whether it is a port.
    pub fn name_type(&self, name: u64) -> (r: Result<(&mir::Type, bool), Error>)
        ensures
            match r {
                Ok((ty, is_port)) => self.port_of(name) == Some(is_port) && *ty == first_type(self.entries@, name),
                Err(e) => self.port_of(name) is None && e == Error::Internal(InternalError::UnknownType(name)),
            },
    {
        let mut i: usize = 0;
        assert(self.entries@.subrange(0, self.entries@.len() as int) =~= self.entries@);
        while i < self.entries.len()
            invariant
                0 <= i <= self.entries@.len(),
                first_port(self.entries@, name) == first_port(self.entries@.subrange(i as int, self.entries@.len() as int), name),
                first_type(self.entries@, name) == first_type(self.entries@.subrange(i as int, self.entries@.len() as int), name),
            decreases self.entries@.len() - i,
        {
            assert(self.entries@.subrange(i as int, self.entries@.len() as int).drop_first()
                =~= self.entries@.subrange(i + 1, self.entries@.len() as int));
            if self.entries[i].name == name {
                return Ok((&self.entries[i].ty, self.entries[i].is_port));
            }
            i += 1;
        }
        Err(Error::Internal(InternalError::UnknownType(name)))
    }
}

/// The type of variable `name`, as the first entry for it in `entries` says.
pub open spec fn first_type(entries: Seq<TypeInfo>, name: u64) -> mir::Type
    decreases entries.len(),
{
    if entries.len() == 0 {
        mir::Type::Bool
    } else if entries[0].name == name {
        entries[0].ty
    } else {
        first_type(entries.drop_first(), name)
    }
}

/// Whether variable `name` is a port, as the first entry for it in `entries` says.
pub open spec fn first_port(entries: Seq<TypeInfo>, name: u64) -> Option<bool>
    decreases entries.len(),
{
    if entries.len() == 0 {
        None
    } else if entries[0].name == name {
        Some(entries[0].is_port)
    } else {
        first_port(entries.drop_first(), name)
    }
}

/// The signals of the stages of a pipeline.
#[derive(Debug)]
pub struct PipelineContext {
    /// For each stage, its enable signal, which `stage.ready` denotes; `None` where the
    /// stage is always enabled. One more entry than there are stage markers: the last
    /// stage can never stall.
    pub ready_signals: Vec<Option<ValueName>>,
    /// For each stage, its valid signal, which `stage.valid` denotes; `None` where the
    /// stage is always valid.
    pub valid_signals: Vec<Option<ValueName>>,
}

#[derive(Debug)]
pub enum MaybePipelineContext {
    NotPipeline,
    Pipeline(PipelineContext),
}

impl MaybePipelineContext {
    /// The pipeline context, where the unit being lowered is a pipeline; a diagnostic at
    /// `request_loc` otherwise.
    pub fn get(&mut self, request_loc: Span) -> (r: Result<&mut PipelineContext, Error>)
        ensures
            match *old(self) {
                MaybePipelineContext::NotPipeline => r == Err::<&mut PipelineContext, Error>(
                    Error::MissingPipelineContext(request_loc),
                ) && *final(self) == *old(self),
                MaybePipelineContext::Pipeline(ctx) => r is Ok && *r->Ok_0 == ctx
                    && *final(self) == MaybePipelineContext::Pipeline(*final(r->Ok_0)),
            },
    {
        match self {
            MaybePipelineContext::NotPipeline => Err(Error::MissingPipelineContext(request_loc)),
            MaybePipelineContext::Pipeline(ctx) => Ok(ctx),
        }
    }
}

/// The state that lowering a unit shares between its steps.
#[derive(Debug)]
pub struct Context {
    pub subs: Substitutions,
    pub idtracker: IdTracker,
    pub types: TypeTable,
    pub pipeline_context: MaybePipelineContext,
}

/// The display name of a name: the last segment of its path.
fn tail_of(n: &NameID) -> String {
    let segments = &(n.1).0;
    if segments.len() == 0 {
        String::new()
    } else {
        segments[segments.len() - 1].0.clone()
    }
}

/// The circuit signal of a source name.
pub fn value_name(n: &NameID) -> (r: ValueName)
    ensures
        r.key() == SignalKey::Named(n.0),
        r.source_key() == SourceKey::Name(n.0),
{
    ValueName::Named(n.0, tail_of(n), ValueNameSource::Name(n.clone()))
}

/// The circuit signal of a source name, with another provenance.
pub fn value_name_with_alternate_source(n: &NameID, source: ValueNameSource) -> (r: ValueName)
    ensures
        r.key() == SignalKey::Named(n.0),
        r.source_key() == source.key(),
{
    ValueName::Named(n.0, tail_of(n), source)
}

/// Adds the names that a pattern binds to the list of live variables.
pub fn handle_pattern(pat: &Pattern, live_vars: &mut Vec<NameID>)
    ensures
        final(live_vars)@.map_values(|n: NameID| n.0) == old(live_vars)@.map_values(|n: NameID| n.0)
            + pattern_names(pat.kind),
{
    let names = pat.get_names();
    let ghost start = live_vars@;
    let mut i: usize = 0;
    while i < names.len()
        invariant
            0 <= i <= names@.len(),
            live_vars@.map_values(|n: NameID| n.0) == start.map_values(|n: NameID| n.0)
                + names@.subrange(0, i as int).map_values(|n: NameID| n.0),
        decreases names@.len() - i,
    {
        let ghost before = live_vars@;
        live_vars.push(names[i].clone());
        assert(live_vars@.map_values(|n: NameID| n.0) =~= before.map_values(|n: NameID| n.0).push(names@[i as int].0));
        assert(names@.subrange(0, i + 1).map_values(|n: NameID| n.0)
            =~= names@.subrange(0, i as int).map_values(|n: NameID| n.0).push(names@[i as int].0));
        assert(live_vars@.map_values(|n: NameID| n.0) =~= start.map_values(|n: NameID| n.0)
            + names@.subrange(0, i + 1).map_values(|n: NameID| n.0));
        i += 1;
    }
    assert(names@.subrange(0, i as int) =~= names@);
}

/// Whether every name of `names` has a known type.
pub open spec fn all_typed(types: TypeTable, names: Seq<u64>) -> bool {
    forall|k: int| 0 <= k < names.len() ==> (#[trigger] types.port_of(names[k])) is Some
}

/// Records that the variables `names` become available `time` stages from now.
#[verifier::rlimit(50)]
fn set_names_available(ctx: &mut Context, names: &Vec<NameID>, time: u128) -> (r: Result<(), Error>)
    requires
        old(ctx).subs.wf(),
    ensures
        final(ctx).subs.wf(),
        final(ctx).types == old(ctx).types,
        final(ctx).idtracker == old(ctx).idtracker,
        final(ctx).pipeline_context == old(ctx).pipeline_context,
        final(ctx).subs.names().len() <= old(ctx).subs.names().len() + names@.len(),
        old(ctx).subs.names().len() <= final(ctx).subs.names().len(),
        final(ctx).subs.names().subrange(0, old(ctx).subs.names().len() as int) == old(ctx).subs.names(),
        forall|j: int| old(ctx).subs.names().len() <= j < final(ctx).subs.names().len()
            ==> names@.map_values(|n: NameID| n.0).contains(#[trigger] final(ctx).subs.names()[j]),
        r is Ok <==> all_typed(old(ctx).types, names@.map_values(|n: NameID| n.0)),
        r is Err ==> r->Err_0 is Internal,
        r is Ok ==> forall|i: int| 0 <= i < final(ctx).subs.vars@.len() ==> #[trigger] final(ctx).subs.states()[i] == (
            if names@.map_values(|n: NameID| n.0).contains(final(ctx).subs.names()[i]) {
                initial_substitution(final(ctx).subs.names()[i], time,
                    old(ctx).types.port_of(final(ctx).subs.names()[i])->Some_0)
            } else {
                old(ctx).subs.states()[i]
            }),
{
    let ghost ids = names@.map_values(|n: NameID| n.0);
    let ghost start_names = ctx.subs.names();
    let ghost start_states = ctx.subs.states();
    let mut i: usize = 0;
    while i < names.len()
        invariant
            0 <= i <= names@.len(),
            ids == names@.map_values(|n: NameID| n.0),
            ctx.subs.wf(),
            ctx.types == old(ctx).types,
            ctx.idtracker == old(ctx).idtracker,
            ctx.pipeline_context == old(ctx).pipeline_context,
            start_names == old(ctx).subs.names(),
            start_states == old(ctx).subs.states(),
            ctx.subs.names().len() <= start_names.len() + i,
            start_names.len() <= ctx.subs.names().len(),
            ctx.subs.names().subrange(0, start_names.len() as int) == start_names,
            forall|k: int| 0 <= k < i ==> (#[trigger] ctx.types.port_of(ids[k])) is Some,
            forall|j: int| 0 <= j < ctx.subs.vars@.len() ==> #[trigger] ctx.subs.states()[j] == (
                if ids.subrange(0, i as int).contains(ctx.subs.names()[j]) {
                    initial_substitution(ctx.subs.names()[j], time, ctx.types.port_of(ctx.subs.names()[j])->Some_0)
                } else {
                    start_states[j]
                }),
            forall|j: int| start_names.len() <= j < ctx.subs.names().len() ==>
                ids.subrange(0, i as int).contains(#[trigger] ctx.subs.names()[j]),
        decreases names@.len() - i,
    {
        let (_, is_port) = match ctx.types.name_type(names[i].0) {
            Ok(t) => t,
            Err(e) => {
                assert(!all_typed(old(ctx).types, ids)) by {
                    assert(ctx.types.port_of(ids[i as int]) is None);
                }
                return Err(e);
            },
        };
        let ghost before_names = ctx.subs.names();
        let ghost before_states = ctx.subs.states();
        ctx.subs.set_available(names[i].clone(), time, is_port);
        let ghost id = ids[i as int];
        assert(ids.subrange(0, i + 1) =~= ids.subrange(0, i as int).push(id));
        assert(ctx.subs.names().subrange(0, start_names.len() as int) =~= start_names) by {
            if before_names.contains(id) {
                assert(ctx.subs.names() == before_names);
            } else {
                assert(ctx.subs.names() == before_names.push(id));
                assert(before_names.push(id).subrange(0, start_names.len() as int)
                    =~= before_names.subrange(0, start_names.len() as int));
            }
        }
        assert forall|j: int| 0 <= j < ctx.subs.vars@.len() implies #[trigger] ctx.subs.states()[j] == (
            if ids.subrange(0, i + 1).contains(ctx.subs.names()[j]) {
                initial_substitution(ctx.subs.names()[j], time, ctx.types.port_of(ctx.subs.names()[j])->Some_0)
            } else {
                start_states[j]
            }) by {
            let nj = ctx.subs.names()[j];
            assert(nj == ctx.subs.vars@[j].0.0);
            assert(ids.subrange(0, i + 1)[i as int] == id);
            if nj != id {
                if j >= before_names.len() {
                    assert(ctx.subs.names() == before_names.push(id));
                }
                assert(before_names[j] == nj);
                assert(ctx.subs.states()[j] == before_states[j]);
                if ids.subrange(0, i + 1).contains(nj) {
                    let w = choose|w: int| 0 <= w < i + 1 && #[trigger] ids.subrange(0, i + 1)[w] == nj;
                    assert(ids.subrange(0, i as int)[w] == nj);
                }
                if ids.subrange(0, i as int).contains(nj) {
                    let w = choose|w: int| 0 <= w < i && #[trigger] ids.subrange(0, i as int)[w] == nj;
                    assert(ids.subrange(0, i + 1)[w] == nj);
                }
            }
        }
        assert forall|j: int| start_names.len() <= j < ctx.subs.names().len() implies
            ids.subrange(0, i + 1).contains(#[trigger] ctx.subs.names()[j]) by {
            let nj = ctx.subs.names()[j];
            if j < before_names.len() {
                assert(before_names[j] == nj);
                assert(ids.subrange(0, i as int).contains(nj));
                let w = choose|w: int| 0 <= w < i && #[trigger] ids.subrange(0, i as int)[w] == nj;
                assert(ids.subrange(0, i + 1)[w] == nj);
            } else {
                assert(ids.subrange(0, i + 1)[i as int] == id);
            }
        }
        i += 1;
    }
    assert(ids.subrange(0, i as int) =~= ids);
    assert forall|j: int| start_names.len() <= j < ctx.subs.names().len()
        implies ids.contains(#[trigger] ctx.subs.names()[j]) by {
        assert(ids.subrange(0, i as int).contains(ctx.subs.names()[j]));
    }
    Ok(())
}

/// Whether, from index `start` of `stmts` on, the register `new` carries the variable
/// named `prev` in the stage before it across a stage boundary: it takes `prev` itself
/// where the stage has no enable signal, and otherwise a selection of `prev` where the
/// enable signal holds and of its own value where it does not, so that a stalled stage
/// keeps its contents; that selection is an anonymous value defined before the register. The register records `original` as its provenance and traces
/// no state.
#[verifier::opaque]
pub open spec fn carries(stmts: Seq<mir::Statement>, start: int, clock: SignalKey, enable: Option<SignalKey>, original: u64, prev: u64, new: u64) -> bool {
    exists|k: int, v: SignalKey| start <= k < stmts.len()
        && #[trigger] is_register(stmts[k], SignalKey::Named(new), clock, v)
        && is_pipelined_copy(stmts[k], original)
        && match enable {
            None => v == SignalKey::Named(prev),
            Some(e) => v is Expr && exists|k2: int| start <= k2 < k && is_binding(#[trigger] stmts[k2], v,
                Operator::Select, seq![e, SignalKey::Named(prev), SignalKey::Named(new)]),
        }
}

proof fn lemma_carries_widen(s1: Seq<mir::Statement>, s2: Seq<mir::Statement>, lo: int, start: int, clock: SignalKey,
    enable: Option<SignalKey>, original: u64, prev: u64, new: u64)
    requires
        0 <= lo <= start,
        s1.len() <= s2.len(),
        forall|k: int| 0 <= k < s1.len() ==> s2[k] == s1[k],
        carries(s1, start, clock, enable, original, prev, new),
    ensures
        carries(s2, lo, clock, enable, original, prev, new),
{
    reveal(carries);
    let (k, v) = choose|k: int, v: SignalKey| start <= k < s1.len()
        && #[trigger] is_register(s1[k], SignalKey::Named(new), clock, v)
        && is_pipelined_copy(s1[k], original)
        && match enable {
            None => v == SignalKey::Named(prev),
            Some(e) => v is Expr && exists|k2: int| start <= k2 < k && is_binding(#[trigger] s1[k2], v,
                Operator::Select, seq![e, SignalKey::Named(prev), SignalKey::Named(new)]),
        };
    assert(s2[k] == s1[k]);
    if enable is Some {
        let e = enable->Some_0;
        let k2 = choose|k2: int| start <= k2 < k && is_binding(#[trigger] s1[k2], v,
            Operator::Select, seq![e, SignalKey::Named(prev), SignalKey::Named(new)]);
        assert(s2[k2] == s1[k2]);
    }
}

/// Whether the statements from `start` on hold, for each variable of `carry`, a register
/// that carries it across a stage boundary with the given enable signal.
#[verifier::opaque]
pub open spec fn carries_all(stmts: Seq<mir::Statement>, start: int, clock: SignalKey, enable: Option<SignalKey>,
    carry: Seq<(u64, u64)>) -> bool {
    forall|j: int| 0 <= j < carry.len() ==> #[trigger] carried_at(stmts, start, clock, enable, carry[j])
}

/// Whether the statements from `start` on hold a register that carries the variable
/// `c.0`, known as `c.1` before the boundary, across it.
pub open spec fn carried_at(stmts: Seq<mir::Statement>, start: int, clock: SignalKey, enable: Option<SignalKey>,
    c: (u64, u64)) -> bool {
    exists|new: u64| carries(stmts, start, clock, enable, c.0, c.1, new)
}

proof fn lemma_carries_all_intro(stmts: Seq<mir::Statement>, start: int, clock: SignalKey, enable: Option<SignalKey>,
    carry: Seq<(u64, u64)>, first: int)
    requires
        forall|k: int| 0 <= k < carry.len() ==> carries(stmts, start, clock, enable, carry[k].0,
            #[trigger] carry[k].1, (first + k) as u64),
    ensures
        carries_all(stmts, start, clock, enable, carry),
{
    reveal(carries_all);
    assert forall|j: int| 0 <= j < carry.len() implies #[trigger] carried_at(stmts, start, clock, enable, carry[j]) by {
        assert(carries(stmts, start, clock, enable, carry[j].0, carry[j].1, (first + j) as u64));
    }
}

proof fn lemma_carries_all_widen(s1: Seq<mir::Statement>, s2: Seq<mir::Statement>, lo: int, start: int, clock: SignalKey,
    enable: Option<SignalKey>, carry: Seq<(u64, u64)>)
    requires
        0 <= lo <= start,
        s1.len() <= s2.len(),
        forall|k: int| 0 <= k < s1.len() ==> s2[k] == s1[k],
        carries_all(s1, start, clock, enable, carry),
    ensures
        carries_all(s2, lo, clock, enable, carry),
{
    reveal(carries_all);
    assert forall|j: int| 0 <= j < carry.len() implies #[trigger] carried_at(s2, lo, clock, enable, carry[j]) by {
        assert(carried_at(s1, start, clock, enable, carry[j]));
        let new = choose|new: u64| carries(s1, start, clock, enable, carry[j].0, carry[j].1, new);
        lemma_carries_widen(s1, s2, lo, start, clock, enable, carry[j].0, carry[j].1, new);
    }
}

/// Whether `after` is what recording the names `bound`, available `t` stages from now,
/// makes of the tracker `before`: new names are appended, each recorded name gets its
/// initial substitution, and the others keep theirs.
pub open spec fn records(before: Substitutions, after: Substitutions, bound: Seq<u64>, t: u128, types: TypeTable) -> bool {
    &&& after.wf()
    &&& before.names().len() <= after.names().len()
    &&& after.names().subrange(0, before.names().len() as int) == before.names()
    &&& forall|j: int| before.names().len() <= j < after.names().len() ==> bound.contains(#[trigger] after.names()[j])
    &&& forall|i: int| 0 <= i < after.vars@.len() ==> #[trigger] after.states()[i] == (
        if bound.contains(after.names()[i]) {
            initial_substitution(after.names()[i], t, types.port_of(after.names()[i])->Some_0)
        } else {
            before.states()[i]
        })
}

/// Whether `after` is the tracker one stage boundary after `before`, where `live` are
/// the variables referred to after the boundary and the copies made there are numbered
/// from `first` on.
pub open spec fn advances(before: Substitutions, after: Substitutions, live: Seq<u64>, first: int) -> bool {
    &&& after.wf()
    &&& after.names() == before.names()
    &&& forall|i: int| 0 <= i < after.vars@.len() ==> advanced(before.names()[i],
        before.states()[i], #[trigger] after.states()[i], live.contains(before.names()[i]),
        first + carried(before.vars@.subrange(0, i), live).len())
}

/// Whether `after` is the tracker after statement `p` of a pipeline body, from `before`.
#[verifier::opaque]
pub open spec fn tracks(block: Block, p: int, before: Substitutions, after: Substitutions, types: TypeTable,
    first: int) -> bool {
    let st = block.statements@[p].inner;
    if st is PipelineRegMarker {
        advances(before, after, refs_after(block, p), first)
    } else {
        match bound_by(st) {
            Some((pattern, value)) => availability(value.kind) is Ok
                && records(before, after, pattern_names(pattern.kind), availability(value.kind)->Ok_0, types),
            None => after == before,
        }
    }
}

/// The names of a pipeline's inputs.
pub open spec fn pipeline_input_ids(inputs: Seq<(Loc<NameID>, Loc<TypeSpec>)>) -> Seq<u64> {
    inputs.map_values(|i: (Loc<NameID>, Loc<TypeSpec>)| i.0.inner.0)
}

/// The stage index of the marker at position `p` of a statement list.
pub open spec fn stage_of(stmts: Seq<Loc<Statement>>, p: int) -> int {
    stage_guards(stmts.subrange(0, p)).len() as int
}

/// Whether the tracker states `trace`, one before each statement of the pipeline body
/// and one after the last, follow the lowering: the first records the inputs, each
/// later one follows from the one before over its statement (the copies made at marker
/// `p` numbered from `firsts[p]` on), and at each stage marker the statements from
/// `start` on carry every live variable available before it.
pub open spec fn lowering_trace(trace: Seq<Substitutions>, firsts: Seq<int>, block: Block, inputs: Seq<u64>, start_subs: Substitutions,
    types: TypeTable, stmts: Seq<mir::Statement>, start: int, clock: SignalKey, ready: Seq<Option<ValueName>>) -> bool {
    &&& trace.len() == block.statements@.len() + 1
    &&& records(start_subs, trace[0], inputs, 0, types)
    &&& firsts.len() == block.statements@.len()
    &&& forall|p: int| 0 <= p < block.statements@.len() ==> tracks(block, p, #[trigger] trace[p], trace[p + 1], types,
        firsts[p])
    &&& forall|p: int| 0 <= p < block.statements@.len() && (#[trigger] block.statements@[p]).inner is PipelineRegMarker
        ==> carries_all(stmts, start, clock, opt_key(ready[stage_of(block.statements@, p)]),
            carried(trace[p].vars@, refs_after(block, p)))
}

/// One more statement keeps every stage marker's live variables carried, and a marker
/// adds the registers for its own.
proof fn lemma_carry_step(block: Block, trace: Seq<Substitutions>, slots: Seq<Option<ValueName>>,
    before_stmts: Seq<mir::Statement>, after_stmts: Seq<mir::Statement>, ostart: int, clock: SignalKey,
    p: int, n: int, stage: int, carry: Seq<(u64, u64)>, first: int)
    requires
        0 <= p < block.statements@.len(),
        p < trace.len(),
        slots.len() == n,
        0 <= ostart <= before_stmts.len() <= after_stmts.len(),
        after_stmts.subrange(0, before_stmts.len() as int) == before_stmts,
        forall|q: int| 0 <= q < p && (#[trigger] block.statements@[q]).inner is PipelineRegMarker
            ==> stage_of(block.statements@, q) < n && carries_all(before_stmts, ostart, clock,
                opt_key(slots[stage_of(block.statements@, q)]), carried(trace[q].vars@, refs_after(block, q))),
        block.statements@[p].inner is PipelineRegMarker ==> {
            &&& stage_of(block.statements@, p) == stage
            &&& 0 <= stage < n
            &&& carry == carried(trace[p].vars@, refs_after(block, p))
            &&& forall|k: int| 0 <= k < carry.len() ==> carries(after_stmts, before_stmts.len() as int, clock,
                opt_key(slots[stage]), carry[k].0, #[trigger] carry[k].1, (first + k) as u64)
        },
    ensures
        forall|q: int| 0 <= q < p + 1 && (#[trigger] block.statements@[q]).inner is PipelineRegMarker
            ==> stage_of(block.statements@, q) < n && carries_all(after_stmts, ostart, clock,
                opt_key(slots[stage_of(block.statements@, q)]), carried(trace[q].vars@, refs_after(block, q))),
{
    assert forall|k: int| 0 <= k < before_stmts.len() implies after_stmts[k] == before_stmts[k] by {
        assert(after_stmts.subrange(0, before_stmts.len() as int)[k] == after_stmts[k]);
    }
    assert forall|q: int| 0 <= q < p + 1 && (#[trigger] block.statements@[q]).inner is PipelineRegMarker
        implies stage_of(block.statements@, q) < n && carries_all(after_stmts, ostart, clock,
            opt_key(slots[stage_of(block.statements@, q)]), carried(trace[q].vars@, refs_after(block, q))) by {
        if q < p {
            lemma_carries_all_widen(before_stmts, after_stmts, ostart, ostart, clock,
                opt_key(slots[stage_of(block.statements@, q)]), carried(trace[q].vars@, refs_after(block, q)));
        } else {
            lemma_carries_all_intro(after_stmts, before_stmts.len() as int, clock, opt_key(slots[stage]), carry, first);
            lemma_carries_all_widen(after_stmts, after_stmts, ostart, before_stmts.len() as int, clock,
                opt_key(slots[stage]), carry);
        }
    }
}

/// Whether the statements of `stmts` in `a..b` define the enable signals `slots` of the
/// stages with local conditions `conds`, and nothing else: each is a boolean binding
/// that defines the enable signal of a stage that needs one, and each such stage's is
/// defined by exactly one of them.
pub open spec fn enable_block(stmts: Seq<mir::Statement>, a: int, b: int, conds: Seq<Option<ValueName>>,
    slots: Seq<Option<ValueName>>) -> bool {
    &&& forall|k: int| a <= k < b ==> (#[trigger] stmts[k]) is Binding && is_boolean(stmts[k])
        && defines_some_enable(stmts, k, conds, slots, 0)
    &&& forall|i: int| 0 <= i < slots.len() && needs_enable(conds, i) ==> enable_defined(stmts.subrange(0, b), a, conds, slots, i)
    &&& forall|k1: int, k2: int, i: int| a <= k1 < b && a <= k2 < b && 0 <= i < slots.len()
        && #[trigger] defines_enable(stmts[k1], conds, slots, i)
        && #[trigger] defines_enable(stmts[k2], conds, slots, i) ==> k1 == k2
}

/// Whether the statements of `stmts` from `b` on are what valid-signal synthesis emits:
/// boolean bindings and registers, the registers anonymous, clocked by `clock` and
/// without reset.
pub open spec fn valid_block(stmts: Seq<mir::Statement>, b: int, clock: SignalKey) -> bool {
    forall|k: int| b <= k < stmts.len() ==> is_boolean(#[trigger] stmts[k]) && clocked_by(stmts[k], clock)
        && (stmts[k] is Register ==> stmts[k]->Register_0.name is Expr)
}

/// Whether the statements from `start` on fall into three blocks: up to `a` what carrying
/// variables across boundaries emits, up to `b` the enable definitions, and then the
/// valid-signal statements.
pub open spec fn signal_blocks(stmts: Seq<mir::Statement>, start: int, a: int, b: int, conds: Seq<Option<ValueName>>,
    slots: Seq<Option<ValueName>>, clock: SignalKey) -> bool {
    &&& start <= a <= b <= stmts.len()
    &&& forall|k: int| start <= k < a ==> is_carry_statement(#[trigger] stmts[k])
    &&& enable_block(stmts, a, b, conds, slots)
    &&& valid_block(stmts, b, clock)
}

proof fn lemma_enable_block_grows(s1: Seq<mir::Statement>, s2: Seq<mir::Statement>, a: int, conds: Seq<Option<ValueName>>,
    slots: Seq<Option<ValueName>>)
    requires
        0 <= a <= s1.len() <= s2.len(),
        forall|k: int| 0 <= k < s1.len() ==> s2[k] == s1[k],
        forall|k: int| a <= k < s1.len() ==> (#[trigger] s1[k]) is Binding && is_boolean(s1[k]),
        forall|k: int| a <= k < s1.len() ==> defines_some_enable(s1, k, conds, slots, 0),
        forall|i: int| 0 <= i < slots.len() && needs_enable(conds, i) ==> enable_defined(s1, a, conds, slots, i),
        forall|k1: int, k2: int, i: int| a <= k1 < s1.len() && a <= k2 < s1.len() && 0 <= i < slots.len()
            && #[trigger] defines_enable(s1[k1], conds, slots, i)
            && #[trigger] defines_enable(s1[k2], conds, slots, i) ==> k1 == k2,
    ensures
        enable_block(s2, a, s1.len() as int, conds, slots),
{
    assert(s2.subrange(0, s1.len() as int) =~= s1);
    assert forall|k: int| a <= k < s1.len() implies defines_some_enable(s2, k, conds, slots, 0) by {
        reveal(defines_some_enable);
        assert(defines_some_enable(s1, k, conds, slots, 0));
        let j = choose|j: int| 0 <= j < slots.len() && needs_enable(conds, j)
            && #[trigger] defines_enable(s1[k], conds, slots, j);
        assert(s2[k] == s1[k]);
        assert(defines_enable(s2[k], conds, slots, j));
    }
}

/// Whether `s` is what carrying variables across a boundary emits: a copy register or
/// the selection of a stalled stage.
pub open spec fn is_carry_statement(s: mir::Statement) -> bool {
    match s {
        mir::Statement::Register(_) => is_copy_register(s),
        mir::Statement::Binding(b) => b.operator == Operator::Select && b.name is Expr,
        _ => false,
    }
}

/// Whether `s` is the register named `copy` that copies the variable `original`.
pub open spec fn is_copy_of(s: mir::Statement, copy: u64, original: u64) -> bool {
    match s {
        mir::Statement::Register(r) => r.name.key() == SignalKey::Named(copy) && is_pipelined_copy(s, original),
        _ => false,
    }
}

/// Whether some statement of `stmts` from `start` on is the register named `copy` that
/// copies `original`.
pub open spec fn copy_registered(stmts: Seq<mir::Statement>, start: int, copy: u64, original: u64) -> bool {
    exists|k: int| start <= k < stmts.len() && #[trigger] is_copy_of(stmts[k], copy, original)
}

/// The name-map entries that lowering adds and the copy registers it appends stay
/// in correspondence across one statement.
proof fn lemma_copies_step(
    st: Statement,
    before_stmts: Seq<mir::Statement>,
    stmts: Seq<mir::Statement>,
    before_map: Seq<(NameID, NameID)>,
    map: Seq<(NameID, NameID)>,
    ostart: int,
    old_map: Seq<(NameID, NameID)>,
    subs: Substitutions,
    live: Seq<u64>,
    first: u64,
    clock: u64,
    enable: Option<SignalKey>,
)
    requires
        0 <= ostart <= before_stmts.len() <= stmts.len(),
        stmts.subrange(0, before_stmts.len() as int) == before_stmts,
        old_map.len() <= before_map.len(),
        map_pairs(before_map).subrange(0, old_map.len() as int) == map_pairs(old_map),
        forall|e: int| old_map.len() <= e < before_map.len() ==> copy_registered(
            before_stmts, ostart, (#[trigger] map_pairs(before_map)[e]).0, map_pairs(before_map)[e].1),
        forall|k: int| ostart <= k < before_stmts.len() && is_copy_register(#[trigger] before_stmts[k])
            ==> exists|e: int| old_map.len() <= e < before_map.len()
                && is_copy_of(before_stmts[k], map_pairs(before_map)[e].0, map_pairs(before_map)[e].1),
        !(st is PipelineRegMarker) ==> stmts == before_stmts && map == before_map,
        st is PipelineRegMarker ==> {
            let carry = carried(subs.vars@, live);
            &&& map_pairs(map) == map_pairs(before_map)
                + carry.map_values(|c: (u64, u64)| c.0).map(|k: int, o: u64| ((first + k) as u64, o))
            &&& forall|k: int| 0 <= k < carry.len() ==> carries(stmts, before_stmts.len() as int,
                SignalKey::Named(clock), enable, carry[k].0, #[trigger] carry[k].1, (first + k) as u64)
            &&& forall|k: int| before_stmts.len() <= k < stmts.len()
                && (#[trigger] stmts[k]) is Register ==> exists|j: int| 0 <= j < carry.len()
                    && is_copy_of(stmts[k], (first + j) as u64, carry[j].0)
        },
    ensures
        old_map.len() <= map.len(),
        map_pairs(map).subrange(0, old_map.len() as int) == map_pairs(old_map),
        forall|e: int| old_map.len() <= e < map.len() ==> copy_registered(
            stmts, ostart, (#[trigger] map_pairs(map)[e]).0, map_pairs(map)[e].1),
        forall|k: int| ostart <= k < stmts.len() && is_copy_register(#[trigger] stmts[k])
            ==> exists|e: int| old_map.len() <= e < map.len()
                && is_copy_of(stmts[k], map_pairs(map)[e].0, map_pairs(map)[e].1),
{
    if st is PipelineRegMarker {
        let carry = carried(subs.vars@, live);
        let fresh = carry.map_values(|c: (u64, u64)| c.0).map(|k: int, o: u64| ((first + k) as u64, o));
        let bl = before_map.len();
        assert(map_pairs(map).len() == map.len());
        assert(map_pairs(before_map).len() == bl);
        assert(map.len() == bl + fresh.len());
        assert(map_pairs(map).subrange(0, old_map.len() as int) =~= map_pairs(before_map).subrange(0, old_map.len() as int));
        assert forall|e: int| old_map.len() <= e < map.len() implies copy_registered(
            stmts, ostart, (#[trigger] map_pairs(map)[e]).0, map_pairs(map)[e].1) by {
            if e < bl {
                assert(map_pairs(map)[e] == map_pairs(before_map)[e]);
                lemma_copy_registered_widen(before_stmts, stmts, ostart, ostart,
                    map_pairs(before_map)[e].0, map_pairs(before_map)[e].1);
            } else {
                let k = e - bl;
                assert(map_pairs(map)[e] == fresh[k]);
                assert(fresh[k] == ((first + k) as u64, carry[k].0));
                lemma_carries_registered(stmts, before_stmts.len() as int, SignalKey::Named(clock), enable,
                    carry[k].0, carry[k].1, (first + k) as u64);
                lemma_copy_registered_widen(stmts, stmts, ostart, before_stmts.len() as int,
                    (first + k) as u64, carry[k].0);
            }
        }
        assert forall|k: int| ostart <= k < stmts.len() && is_copy_register(#[trigger] stmts[k])
            implies exists|e: int| old_map.len() <= e < map.len()
                && is_copy_of(stmts[k], map_pairs(map)[e].0, map_pairs(map)[e].1) by {
            if k < before_stmts.len() {
                assert(stmts[k] == stmts.subrange(0, before_stmts.len() as int)[k]);
                assert(stmts[k] == before_stmts[k]);
                let e = choose|e: int| old_map.len() <= e < before_map.len()
                    && is_copy_of(before_stmts[k], map_pairs(before_map)[e].0, map_pairs(before_map)[e].1);
                assert(map_pairs(map)[e] == map_pairs(before_map)[e]);
            } else {
                let j = choose|j: int| 0 <= j < carry.len() && is_copy_of(stmts[k], (first + j) as u64, carry[j].0);
                assert(map_pairs(map)[bl + j] == fresh[j]);
            }
        }
    }
}

proof fn lemma_copy_registered_widen(s1: Seq<mir::Statement>, s2: Seq<mir::Statement>, lo: int, start: int, copy: u64, original: u64)
    requires
        0 <= lo <= start,
        s1.len() <= s2.len(),
        forall|k: int| 0 <= k < s1.len() ==> s2[k] == s1[k],
        copy_registered(s1, start, copy, original),
    ensures
        copy_registered(s2, lo, copy, original),
{
    let k = choose|k: int| start <= k < s1.len() && #[trigger] is_copy_of(s1[k], copy, original);
    assert(s2[k] == s1[k]);
}

proof fn lemma_carries_registered(stmts: Seq<mir::Statement>, start: int, clock: SignalKey, enable: Option<SignalKey>, original: u64, prev: u64, new: u64)
    requires
        carries(stmts, start, clock, enable, original, prev, new),
    ensures
        copy_registered(stmts, start, new, original),
{
    reveal(carries);
    let (k, v) = choose|k: int, v: SignalKey| start <= k < stmts.len()
        && #[trigger] is_register(stmts[k], SignalKey::Named(new), clock, v)
        && is_pipelined_copy(stmts[k], original)
        && match enable {
            None => v == SignalKey::Named(prev),
            Some(e) => v is Expr && exists|k2: int| start <= k2 < k && is_binding(#[trigger] stmts[k2], v,
                Operator::Select, seq![e, SignalKey::Named(prev), SignalKey::Named(new)]),
        };
    assert(is_copy_of(stmts[k], new, original));
}

/// Whether `s` is a register that copies a source variable and traces no state.
pub open spec fn is_copy_register(s: mir::Statement) -> bool {
    match s {
        mir::Statement::Register(r) => r.name.source_key() is Name && r.traced is None,
        _ => false,
    }
}

/// Whether `s` is a register whose provenance is the variable `original` and that
/// traces no state.
pub open spec fn is_pipelined_copy(s: mir::Statement, original: u64) -> bool {
    match s {
        mir::Statement::Register(r) => r.name.source_key() == SourceKey::Name(original) && r.traced is None,
        _ => false,
    }
}

proof fn lemma_carries_extend(s1: Seq<mir::Statement>, s2: Seq<mir::Statement>, start: int, clock: SignalKey, enable: Option<SignalKey>, original: u64, prev: u64, new: u64)
    requires
        0 <= start,
        s1.len() <= s2.len(),
        forall|k: int| 0 <= k < s1.len() ==> s2[k] == s1[k],
        carries(s1, start, clock, enable, original, prev, new),
    ensures
        carries(s2, start, clock, enable, original, prev, new),
{
    reveal(carries);
    let (k, v) = choose|k: int, v: SignalKey| start <= k < s1.len()
        && #[trigger] is_register(s1[k], SignalKey::Named(new), clock, v)
        && is_pipelined_copy(s1[k], original)
        && match enable {
            None => v == SignalKey::Named(prev),
            Some(e) => v is Expr && exists|k2: int| start <= k2 < k && is_binding(#[trigger] s1[k2], v,
                Operator::Select, seq![e, SignalKey::Named(prev), SignalKey::Named(new)]),
        };
    assert(is_register(s2[k], SignalKey::Named(new), clock, v));
    if enable is Some {
        let e = enable->Some_0;
        let k2 = choose|k2: int| start <= k2 < k && is_binding(#[trigger] s1[k2], v,
            Operator::Select, seq![e, SignalKey::Named(prev), SignalKey::Named(new)]);
        assert(s2[k2] == s1[k2]);
    }
}

/// Whether none of the copies in `added` is already a copy in the name map `pairs`.
pub open spec fn copies_fresh(pairs: Seq<(u64, u64)>, added: Seq<(u64, u64)>) -> bool {
    forall|k: int, e: int| 0 <= k < added.len() && 0 <= e < pairs.len() ==> #[trigger] pairs[e].0 != #[trigger] added[k].0
}

/// Whether the name map holds a copy named `id`.
fn has_copy(name_map: &Vec<(NameID, NameID)>, id: u64) -> (r: bool)
    ensures
        r == exists|e: int| 0 <= e < name_map@.len() && #[trigger] map_pairs(name_map@)[e].0 == id,
{
    let mut i: usize = 0;
    while i < name_map.len()
        invariant
            0 <= i <= name_map@.len(),
            forall|e: int| 0 <= e < i ==> #[trigger] map_pairs(name_map@)[e].0 != id,
        decreases name_map@.len() - i,
    {
        if name_map[i].0.0 == id {
            assert(map_pairs(name_map@)[i as int].0 == id);
            return true;
        }
        i += 1;
    }
    false
}

/// The (copy, original) pairs of a name map.
pub open spec fn map_pairs(m: Seq<(NameID, NameID)>) -> Seq<(u64, u64)> {
    m.map_values(|e: (NameID, NameID)| (e.0.0, e.1.0))
}

/// The (copy, original) pairs that carrying `regs` adds to the name map.
pub open spec fn register_pairs(regs: Seq<PipelineRegister>) -> Seq<(u64, u64)> {
    regs.map_values(|r: PipelineRegister| (r.new.0, r.original.0))
}

/// The originals of the carried variables.
pub open spec fn register_originals(regs: Seq<PipelineRegister>) -> Seq<u64> {
    regs.map_values(|r: PipelineRegister| r.original.0)
}

/// Emits the register that carries each of `regs` across a stage boundary, and records
/// each copy's original in the name map.
fn carry_registers(
    regs: &Vec<PipelineRegister>,
    enable: &Option<ValueName>,
    clock: &NameID,
    types: &TypeTable,
    ids: &mut IdTracker,
    statements: &mut Vec<mir::Statement>,
    name_map: &mut Vec<(NameID, NameID)>,
    span: Span,
) -> (r: Result<(), Error>)
    requires
        old(ids).next_id + regs@.len() <= u64::MAX,
        forall|a: int, b: int| 0 <= a < b < regs@.len() ==> regs@[a].new.0 != regs@[b].new.0,
    ensures
        r is Ok <==> all_typed(*types, register_originals(regs@))
            && copies_fresh(map_pairs(old(name_map)@), register_pairs(regs@)),
        r is Err ==> r->Err_0 is Internal,
        old(ids).next_id <= final(ids).next_id <= old(ids).next_id + regs@.len(),
        r is Ok ==> final(statements)@.subrange(0, old(statements)@.len() as int) == old(statements)@,
        r is Ok ==> final(statements)@.len() == old(statements)@.len()
            + (if enable is Some { 2 * regs@.len() } else { regs@.len() }),
        r is Ok ==> forall|k: int| 0 <= k < regs@.len() ==> carries(final(statements)@, old(statements)@.len() as int,
            SignalKey::Named(clock.0), opt_key(*enable), regs@[k].original.0, #[trigger] regs@[k].previous.0, regs@[k].new.0),
        old(statements)@.len() <= final(statements)@.len(),
        final(statements)@.subrange(0, old(statements)@.len() as int) == old(statements)@,
        forall|k: int| old(statements)@.len() <= k < final(statements)@.len()
            ==> clocked_by(#[trigger] final(statements)@[k], SignalKey::Named(clock.0)),
        r is Ok && enable is None ==> forall|k: int| old(statements)@.len() <= k < final(statements)@.len()
            ==> is_copy_register(#[trigger] final(statements)@[k]),
        forall|k: int| old(statements)@.len() <= k < final(statements)@.len()
            ==> is_carry_statement(#[trigger] final(statements)@[k]),
        r is Ok ==> forall|k: int| old(statements)@.len() <= k < final(statements)@.len()
            && (#[trigger] final(statements)@[k]) is Register ==> exists|j: int| 0 <= j < regs@.len()
                && is_copy_of(final(statements)@[k], regs@[j].new.0, regs@[j].original.0)
                && same_type(first_type(types.entries@, regs@[j].original.0), final(statements)@[k]->Register_0.ty),
        r is Ok ==> map_pairs(final(name_map)@) == map_pairs(old(name_map)@) + register_pairs(regs@),
{
    let ghost start = statements@.len();
    let ghost clock_key = SignalKey::Named(clock.0);
    let ghost enable_key = opt_key(*enable);
    let mut i: usize = 0;
    while i < regs.len()
        invariant
            0 <= i <= regs@.len(),
            start == old(statements)@.len(),
            clock_key == SignalKey::Named(clock.0),
            enable_key == opt_key(*enable),
            old(ids).next_id <= ids.next_id <= old(ids).next_id + i,
            old(ids).next_id + regs@.len() <= u64::MAX,
            start <= statements@.len(),
            statements@.subrange(0, start as int) == old(statements)@,
            statements@.len() == start + (if enable is Some { 2 * i } else { i as int }),
            forall|k: int| 0 <= k < i ==> (#[trigger] types.port_of(register_originals(regs@)[k])) is Some,
            forall|a: int, b: int| 0 <= a < b < regs@.len() ==> regs@[a].new.0 != regs@[b].new.0,
            forall|k: int, e: int| 0 <= k < i && 0 <= e < map_pairs(old(name_map)@).len()
                ==> #[trigger] map_pairs(old(name_map)@)[e].0 != #[trigger] register_pairs(regs@)[k].0,
            forall|k: int| 0 <= k < i ==> carries(statements@, start as int, clock_key, enable_key,
                regs@[k].original.0, #[trigger] regs@[k].previous.0, regs@[k].new.0),
            forall|k: int| start <= k < statements@.len() ==> clocked_by(#[trigger] statements@[k], clock_key),
            enable is None ==> forall|k: int| start <= k < statements@.len() ==> is_copy_register(#[trigger] statements@[k]),
            forall|k: int| start <= k < statements@.len() ==> is_carry_statement(#[trigger] statements@[k]),
            forall|k: int| start <= k < statements@.len() && (#[trigger] statements@[k]) is Register
                ==> exists|j: int| 0 <= j < i && is_copy_of(statements@[k], regs@[j].new.0, regs@[j].original.0)
                    && same_type(first_type(types.entries@, regs@[j].original.0), statements@[k]->Register_0.ty),
            map_pairs(name_map@) == map_pairs(old(name_map)@) + register_pairs(regs@.subrange(0, i as int)),
        decreases regs@.len() - i,
    {
        let reg = &regs[i];
        assert(register_originals(regs@)[i as int] == reg.original.0);
        let reg_type = match types.name_type(reg.original.0) {
            Ok((t, _)) => t.clone(),
            Err(e) => {
                assert(!all_typed(*types, register_originals(regs@)));
                return Err(e);
            },
        };
        assert(register_pairs(regs@)[i as int].0 == reg.new.0);
        if has_copy(name_map, reg.new.0) {
            proof {
                let e = choose|e: int| 0 <= e < name_map@.len() && #[trigger] map_pairs(name_map@)[e].0 == reg.new.0;
                let olen = map_pairs(old(name_map)@).len();
                let cur = map_pairs(name_map@);
                let prev = map_pairs(old(name_map)@);
                let added = register_pairs(regs@.subrange(0, i as int));
                assert(cur == prev + added);
                assert(cur.len() == name_map@.len());
                if e >= olen {
                    let k = e - olen;
                    assert(cur[e] == added[k]);
                    assert(added[k] == (regs@[k].new.0, regs@[k].original.0));
                    assert(regs@[k].new.0 != regs@[i as int].new.0);
                } else {
                    assert(map_pairs(name_map@)[e] == map_pairs(old(name_map)@)[e]);
                    assert(!copies_fresh(map_pairs(old(name_map)@), register_pairs(regs@)));
                }
            }
            return Err(Error::Internal(InternalError::DuplicateCarry(reg.new.0)));
        }
        proof {
            let cur = map_pairs(name_map@);
            let prev = map_pairs(old(name_map)@);
            assert(cur == prev + register_pairs(regs@.subrange(0, i as int)));
            assert(cur.len() == name_map@.len());
            assert forall|e: int| 0 <= e < prev.len() implies
                #[trigger] prev[e].0 != register_pairs(regs@)[i as int].0 by {
                assert(cur[e] == prev[e]);
                assert(cur[e].0 != reg.new.0);
            }
        }
        let ghost before = statements@;
        let ghost before_map = name_map@;
        name_map.push((reg.new.clone(), reg.original.clone()));
        assert(map_pairs(name_map@) =~= map_pairs(before_map).push((reg.new.0, reg.original.0)));
        assert(register_pairs(regs@.subrange(0, i + 1)) =~= register_pairs(regs@.subrange(0, i as int)).push((reg.new.0, reg.original.0)));
        let ghost v: SignalKey;
        let next = match enable {
            Some(en) => {
                let next_name = ValueName::Expr(ids.next());
                let mut operands: Vec<ValueName> = Vec::new();
                operands.push(en.clone());
                operands.push(value_name(&reg.previous));
                operands.push(value_name(&reg.new));
                assert(operands@.map_values(|x: ValueName| x.key()) =~= seq![en.key(),
                    SignalKey::Named(reg.previous.0), SignalKey::Named(reg.new.0)]);
                statements.push(mir::Statement::Binding(mir::Binding {
                    name: next_name.clone(),
                    operator: Operator::Select,
                    operands,
                    ty: reg_type.clone(),
                    loc: Some(span),
                }));
                proof { v = next_name.key(); }
                assert(is_binding(statements@[statements@.len() - 1], v, Operator::Select,
                    seq![en.key(), SignalKey::Named(reg.previous.0), SignalKey::Named(reg.new.0)]));
                next_name
            },
            None => {
                let n = value_name(&reg.previous);
                proof { v = n.key(); }
                n
            },
        };
        let ghost mid = statements@;
        statements.push(mir::Statement::Register(mir::Register {
            name: value_name_with_alternate_source(&reg.new, ValueNameSource::Name(reg.original.clone())),
            ty: reg_type,
            clock: value_name(clock),
            reset: None,
            value: next,
            traced: None,
            loc: Some(span),
        }));
        let ghost last = statements@.len() - 1;
        assert(is_register(statements@[last], SignalKey::Named(reg.new.0), clock_key, v));
        assert(is_pipelined_copy(statements@[last], reg.original.0));
        assert forall|k: int| start <= k < statements@.len() implies clocked_by(#[trigger] statements@[k], clock_key) by {
            if k < mid.len() {
                assert(statements@[k] == mid[k]);
            }
        }
        assert forall|k: int| start <= k < statements@.len() && (#[trigger] statements@[k]) is Register
            implies exists|j: int| 0 <= j < i + 1 && is_copy_of(statements@[k], regs@[j].new.0, regs@[j].original.0)
                && same_type(first_type(types.entries@, regs@[j].original.0), statements@[k]->Register_0.ty) by {
            if k < mid.len() {
                assert(statements@[k] == mid[k]);
                if k < before.len() {
                    assert(mid[k] == before[k]);
                }
            } else {
                assert(is_copy_of(statements@[k], regs@[i as int].new.0, regs@[i as int].original.0));
            }
        }
        assert forall|k: int| start <= k < statements@.len() implies is_carry_statement(#[trigger] statements@[k]) by {
            if k < mid.len() {
                assert(statements@[k] == mid[k]);
                if k < before.len() {
                    assert(mid[k] == before[k]);
                }
            }
        }
        if enable.is_none() {
            assert forall|k: int| start <= k < statements@.len() implies is_copy_register(#[trigger] statements@[k]) by {
                if k < mid.len() {
                    assert(statements@[k] == mid[k]);
                }
            }
        }
        assert(carries(statements@, start as int, clock_key, enable_key, reg.original.0, reg.previous.0, reg.new.0)) by {
            reveal(carries);
            if enable is Some {
                assert(is_binding(statements@[last - 1], v, Operator::Select,
                    seq![enable_key->Some_0, SignalKey::Named(reg.previous.0), SignalKey::Named(reg.new.0)]));
            }
        }
        assert forall|k: int| 0 <= k < i + 1 implies carries(statements@, start as int, clock_key, enable_key,
            regs@[k].original.0, #[trigger] regs@[k].previous.0, regs@[k].new.0) by {
            if k < i {
                lemma_carries_extend(before, statements@, start as int, clock_key, enable_key,
                    regs@[k].original.0, regs@[k].previous.0, regs@[k].new.0);
            }
        }
        assert(statements@.subrange(0, start as int) =~= before.subrange(0, start as int));
        i += 1;
    }
    assert(regs@.subrange(0, i as int) =~= regs@);
    assert(copies_fresh(map_pairs(old(name_map)@), register_pairs(regs@)));
    Ok(())
}

/// What the tracker says of variable `name`, if it records it.
pub open spec fn state_of(subs: Substitutions, name: u64) -> Option<SubstitutionKey> {
    if exists|i: int| 0 <= i < subs.vars@.len() && subs.vars@[i].0.0 == name {
        let i = choose|i: int| 0 <= i < subs.vars@.len() && subs.vars@[i].0.0 == name;
        Some(subs.vars@[i].1.key())
    } else {
        None
    }
}

/// The signal that a stage guard denotes in the current stage: a variable under its
/// current name, and any other expression under its own id, which the expression
/// lowering defines. A variable whose value does not exist yet is an error.
pub open spec fn guard_key(cond: Loc<Expression>, subs: Substitutions) -> Result<SignalKey, Error> {
    match cond.inner.kind {
        ExprKind::Identifier(n) => match state_of(subs, n.0) {
            Some(SubstitutionKey::Available(current)) => Ok(SignalKey::Named(current)),
            Some(SubstitutionKey::Waiting(k)) => Err(Error::UseBeforeReady { name: n.0, stages_left: k, at: cond.span }),
            _ => Ok(SignalKey::Named(n.0)),
        },
        _ => Ok(SignalKey::Expr(cond.inner.id)),
    }
}

/// The signal that a stage guard denotes in the current stage. For a guard that is not
/// a plain variable this is the value of the guard expression, which the caller's
/// expression lowering defines.
pub fn guard_signal(cond: &Loc<Expression>, subs: &Substitutions) -> (r: Result<ValueName, Error>)
    requires
        subs.wf(),
    ensures
        match (r, guard_key(*cond, *subs)) {
            (Ok(v), Ok(k)) => v.key() == k,
            (Err(e), Err(f)) => e == f,
            _ => false,
        },
{
    match &cond.inner.kind {
        ExprKind::Identifier(n) => match subs.position(n.0) {
            Some(i) => {
                proof {
                    let j = choose|j: int| 0 <= j < subs.vars@.len() && subs.vars@[j].0.0 == n.0;
                    assert(j == i);
                }
                match &subs.vars[i].1 {
                    Substitution::Available(current) => Ok(value_name(current)),
                    Substitution::Waiting(k) => Err(Error::UseBeforeReady { name: n.0, stages_left: *k, at: cond.span }),
                    Substitution::Port => Ok(value_name(n)),
                }
            },
            None => Ok(value_name(n)),
        },
        _ => Ok(ValueName::Expr(cond.inner.id)),
    }
}

/// The pattern and value of a statement that binds names, if it is one.
pub open spec fn bound_by(s: Statement) -> Option<(Pattern, Expression)> {
    match s {
        Statement::Binding(b) => Some((b.pattern.inner, b.value.inner)),
        Statement::Register(reg) => Some((reg.inner.pattern.inner, reg.inner.value.inner)),
        _ => None,
    }
}

/// The number of names that a statement binds.
pub open spec fn bound_count(s: Statement) -> nat {
    match bound_by(s) {
        Some((p, _)) => pattern_names(p.kind).len(),
        None => 0,
    }
}

/// Lowers the pipeline bookkeeping of one statement of a pipeline body. A statement
/// that binds names records in which stage their values exist. A stage marker records
/// the stage's local condition, carries every live variable across the boundary in a
/// register, and moves to the next stage. Other statements leave the bookkeeping as
/// it is.
pub fn handle_statement(
    statement: &Loc<Statement>,
    ctx: &mut Context,
    name_map: &mut Vec<(NameID, NameID)>,
    statements: &mut Vec<mir::Statement>,
    clock: &NameID,
    local_conds: &mut Vec<Option<ValueName>>,
    stage_enable_names: &Vec<Option<ValueName>>,
    current_stage: &mut usize,
    live: &Vec<u64>,
) -> (r: Result<(), Error>)
    requires
        old(ctx).subs.wf(),
        statement.inner is PipelineRegMarker ==> *old(current_stage) < stage_enable_names@.len(),
        old(ctx).idtracker.next_id + 2 * old(ctx).subs.vars@.len() <= u64::MAX,
    ensures
        final(ctx).subs.wf(),
        final(ctx).types == old(ctx).types,
        final(ctx).pipeline_context == old(ctx).pipeline_context,
        final(ctx).subs.names().len() <= old(ctx).subs.names().len() + bound_count(statement.inner),
        old(ctx).subs.names().len() <= final(ctx).subs.names().len(),
        final(ctx).subs.names().subrange(0, old(ctx).subs.names().len() as int) == old(ctx).subs.names(),
        old(ctx).idtracker.next_id <= final(ctx).idtracker.next_id
            <= old(ctx).idtracker.next_id + 2 * old(ctx).subs.vars@.len(),
        old(statements)@.len() <= final(statements)@.len(),
        final(statements)@.subrange(0, old(statements)@.len() as int) == old(statements)@,
        forall|k: int| old(statements)@.len() <= k < final(statements)@.len()
            ==> clocked_by(#[trigger] final(statements)@[k], SignalKey::Named(clock.0))
                && is_carry_statement(final(statements)@[k]),
        !(statement.inner is PipelineRegMarker) ==> *final(current_stage) == *old(current_stage)
            && final(local_conds)@ == old(local_conds)@ && final(name_map)@ == old(name_map)@
            && final(ctx).idtracker == old(ctx).idtracker,
        match bound_by(statement.inner) {
            Some((pattern, value)) => match availability(value.kind) {
                Err(e) => r == Err::<(), Error>(e),
                Ok(t) => (r is Ok <==> all_typed(old(ctx).types, pattern_names(pattern.kind)))
                    && (r is Err ==> r->Err_0 is Internal)
                    && (r is Ok ==> final(statements)@ == old(statements)@
                        && (forall|j: int| old(ctx).subs.names().len() <= j < final(ctx).subs.names().len()
                            ==> pattern_names(pattern.kind).contains(#[trigger] final(ctx).subs.names()[j]))
                        && forall|i: int| 0 <= i < final(ctx).subs.vars@.len() ==> #[trigger] final(ctx).subs.states()[i] == (
                            if pattern_names(pattern.kind).contains(final(ctx).subs.names()[i]) {
                                initial_substitution(final(ctx).subs.names()[i], t,
                                    old(ctx).types.port_of(final(ctx).subs.names()[i])->Some_0)
                            } else {
                                old(ctx).subs.states()[i]
                            })),
            },
            None => true,
        },
        statement.inner is Declaration ==> r == Err::<(), Error>(Error::Internal(InternalError::DeclarationInPipeline(statement.span))),
        statement.inner is PipelineRegMarker ==> {
            let cond = statement.inner->PipelineRegMarker_0;
            let guard = match cond {
                Some(c) => guard_key(c, old(ctx).subs),
                None => Ok(SignalKey::Expr(0)),
            };
            let carry = carried(old(ctx).subs.vars@, live@);
            let enable = opt_key(stage_enable_names@[*old(current_stage) as int]);
            let first = old(ctx).idtracker.next_id;
            &&& guard is Err ==> r == Err::<(), Error>(guard->Err_0)
            &&& guard is Ok ==> (r is Ok <==> all_typed(old(ctx).types, carry.map_values(|c: (u64, u64)| c.0))
                && copies_fresh(map_pairs(old(name_map)@),
                    carry.map_values(|c: (u64, u64)| c.0).map(|k: int, o: u64| ((first + k) as u64, o))))
            &&& r is Err ==> (guard is Err || r->Err_0 is Internal)
            &&& r is Ok ==> {
                &&& *final(current_stage) == *old(current_stage) + 1
                &&& final(ctx).idtracker.next_id >= first + carry.len()
                &&& final(local_conds)@.len() == old(local_conds)@.len() + 1
                &&& final(local_conds)@.subrange(0, old(local_conds)@.len() as int) == old(local_conds)@
                &&& opt_key(final(local_conds)@.last()) == match cond {
                    Some(_) => Some(guard->Ok_0),
                    None => None::<SignalKey>,
                }
                &&& final(ctx).subs.names() == old(ctx).subs.names()
                &&& forall|i: int| 0 <= i < final(ctx).subs.vars@.len() ==> advanced(old(ctx).subs.names()[i],
                    old(ctx).subs.states()[i], #[trigger] final(ctx).subs.states()[i],
                    live@.contains(old(ctx).subs.names()[i]),
                    first + carried(old(ctx).subs.vars@.subrange(0, i), live@).len())
                &&& final(statements)@.len() == old(statements)@.len()
                    + (if enable is Some { 2 * carry.len() } else { carry.len() })
                &&& forall|k: int| 0 <= k < carry.len() ==> carries(final(statements)@, old(statements)@.len() as int,
                    SignalKey::Named(clock.0), enable, carry[k].0, #[trigger] carry[k].1, (first + k) as u64)
                &&& forall|k: int| old(statements)@.len() <= k < final(statements)@.len()
                    ==> clocked_by(#[trigger] final(statements)@[k], SignalKey::Named(clock.0))
                &&& enable is None ==> forall|k: int| old(statements)@.len() <= k < final(statements)@.len()
                    ==> is_copy_register(#[trigger] final(statements)@[k])
                &&& forall|k: int| old(statements)@.len() <= k < final(statements)@.len()
                    && (#[trigger] final(statements)@[k]) is Register ==> exists|j: int| 0 <= j < carry.len()
                        && is_copy_of(final(statements)@[k], (first + j) as u64, carry[j].0)
                        && same_type(first_type(old(ctx).types.entries@, carry[j].0), final(statements)@[k]->Register_0.ty)
                &&& map_pairs(final(name_map)@) == map_pairs(old(name_map)@)
                    + carry.map_values(|c: (u64, u64)| c.0).map(|k: int, o: u64| ((first + k) as u64, o))
            }
        },
        !(statement.inner is PipelineRegMarker) && !(statement.inner is Declaration) && bound_by(statement.inner) is None
            ==> r is Ok && final(statements)@ == old(statements)@ && final(ctx).subs == old(ctx).subs
                && final(name_map)@ == old(name_map)@,
{
    match &statement.inner {
        Statement::Binding(Binding { pattern, value, .. }) => {
            let time = value.inner.kind.available_in()?;
            let names = pattern.inner.get_names();
            set_names_available(ctx, &names, time)
        },
        Statement::Register(reg) => {
            let time = reg.inner.value.inner.kind.available_in()?;
            let names = reg.inner.pattern.inner.get_names();
            set_names_available(ctx, &names, time)
        },
        Statement::Declaration(_) => Err(Error::Internal(InternalError::DeclarationInPipeline(statement.span))),
        Statement::PipelineRegMarker(cond) => {
            let local = match cond {
                Some(c) => Some(guard_signal(c, &ctx.subs)?),
                None => None,
            };
            let ghost old_vars = ctx.subs.vars@;
            let ghost first = ctx.idtracker.next_id;
            let live_vars = ctx.subs.next_stage(&mut ctx.idtracker, live);
            proof {
                assert(live_vars@.len() == carried(old_vars, live@).len());
                lemma_carried_len(old_vars, live@);
                assert(register_originals(live_vars@) =~= carried(old_vars, live@).map_values(|c: (u64, u64)| c.0)) by {
                    assert forall|k: int| 0 <= k < live_vars@.len() implies register_originals(live_vars@)[k]
                        == carried(old_vars, live@).map_values(|c: (u64, u64)| c.0)[k] by {
                        assert(live_vars@.map_values(|r: PipelineRegister| (r.original.0, r.previous.0))[k]
                            == carried(old_vars, live@)[k]);
                    }
                }
            }
            let ghost mid_name_map = name_map@;
            let ghost mid_len = statements@.len();
            proof {
                assert forall|a: int, b: int| 0 <= a < b < live_vars@.len() implies live_vars@[a].new.0 != live_vars@[b].new.0 by {
                    assert(live_vars@[a].new.0 == first + a);
                    assert(live_vars@[b].new.0 == first + b);
                }
                assert(register_pairs(live_vars@) =~= carried(old_vars, live@).map_values(|c: (u64, u64)| c.0).map(|k: int, o: u64| ((first + k) as u64, o))) by {
                    assert forall|k: int| 0 <= k < live_vars@.len() implies register_pairs(live_vars@)[k]
                        == carried(old_vars, live@).map_values(|c: (u64, u64)| c.0).map(|k: int, o: u64| ((first + k) as u64, o))[k] by {
                        assert(live_vars@.map_values(|r: PipelineRegister| (r.original.0, r.previous.0))[k] == carried(old_vars, live@)[k]);
                    }
                }
            }
            carry_registers(
                &live_vars,
                &stage_enable_names[*current_stage],
                clock,
                &ctx.types,
                &mut ctx.idtracker,
                statements,
                name_map,
                statement.span,
            )?;
            proof {
                let carry = carried(old_vars, live@);
                assert forall|k: int| 0 <= k < carry.len() implies #[trigger] carry[k].1 == live_vars@[k].previous.0
                    && live_vars@[k].new.0 == (first + k) as u64 && carry[k].0 == live_vars@[k].original.0 by {
                    assert(live_vars@.map_values(|r: PipelineRegister| (r.original.0, r.previous.0))[k] == carry[k]);
                }
                assert forall|k: int| mid_len <= k < statements@.len() && (#[trigger] statements@[k]) is Register
                    implies exists|j: int| 0 <= j < carry.len()
                        && is_copy_of(statements@[k], (first + j) as u64, carry[j].0) by {
                    let j = choose|j: int| 0 <= j < live_vars@.len()
                        && is_copy_of(statements@[k], live_vars@[j].new.0, live_vars@[j].original.0)
                        && same_type(first_type(ctx.types.entries@, live_vars@[j].original.0), statements@[k]->Register_0.ty);
                    assert(carry[j].0 == live_vars@[j].original.0);
                }
                assert(register_pairs(live_vars@) =~= carry.map_values(|c: (u64, u64)| c.0).map(|k: int, o: u64| ((first + k) as u64, o))) by {
                    assert forall|k: int| 0 <= k < live_vars@.len() implies register_pairs(live_vars@)[k]
                        == carry.map_values(|c: (u64, u64)| c.0).map(|k: int, o: u64| ((first + k) as u64, o))[k] by {
                        assert(live_vars@.map_values(|r: PipelineRegister| (r.original.0, r.previous.0))[k] == carry[k]);
                    }
                }
            }
            let ghost before_conds = local_conds@;
            local_conds.push(local);
            assert(local_conds@.subrange(0, before_conds.len() as int) =~= before_conds);
            let stage_count = stage_enable_names.len();
            assert(*current_stage < stage_count);
            *current_stage = *current_stage + 1;
            Ok(())
        },
        Statement::Label(_) => Ok(()),
        Statement::Assert(_) => Ok(()),
        Statement::WalSuffixed { .. } => Ok(()),
        Statement::Assign { .. } => Ok(()),
    }
}

proof fn lemma_carried_len(vars: Seq<(NameID, Substitution)>, live: Seq<u64>)
    ensures
        carried(vars, live).len() <= vars.len(),
    decreases vars.len(),
{
    if vars.len() > 0 {
        lemma_carried_len(vars.drop_last(), live);
    }
}

/// The variables that the statements of a list refer to from statement `p` on.
pub open spec fn suffix_refs(stmts: Seq<Loc<Statement>>, p: int) -> Seq<u64>
    decreases stmts.len() - p,
{
    if p < 0 || p >= stmts.len() {
        Seq::empty()
    } else {
        statement_refs(stmts[p].inner) + suffix_refs(stmts, p + 1)
    }
}

/// The variables that a block refers to after its statement `p`: in the statements that
/// follow it and in its result. These are the variables live across a stage marker at `p`.
pub open spec fn refs_after(block: Block, p: int) -> Seq<u64> {
    suffix_refs(block.statements@, p + 1) + match block.result {
        Some(r) => expr_refs(r.inner.kind),
        None => Seq::empty(),
    }
}

/// For each statement of a block, the variables that the block refers to after it.
pub fn references_after(block: &Block) -> (later: Vec<Vec<u64>>)
    ensures
        later@.len() == block.statements@.len(),
        forall|p: int| 0 <= p < later@.len() ==> (#[trigger] later@[p])@ == refs_after(*block, p),
{
    let stmts = &block.statements;
    let mut acc: Vec<u64> = Vec::new();
    match &block.result {
        Some(r) => collect_expr_refs(&r.inner.kind, &mut acc),
        None => {},
    }
    let ghost result_refs = acc@;
    assert(result_refs == match block.result {
        Some(r) => expr_refs(r.inner.kind),
        None => Seq::<u64>::empty(),
    });
    let mut later: Vec<Vec<u64>> = Vec::new();
    let mut k: usize = 0;
    while k < stmts.len()
        invariant
            0 <= k <= stmts@.len(),
            later@.len() == k,
        decreases stmts@.len() - k,
    {
        later.push(Vec::new());
        k += 1;
    }
    let mut p: usize = stmts.len();
    while p > 0
        invariant
            0 <= p <= stmts@.len(),
            later@.len() == stmts@.len(),
            acc@ == suffix_refs(stmts@, p as int) + result_refs,
            stmts@ == block.statements@,
            result_refs == match block.result {
                Some(r) => expr_refs(r.inner.kind),
                None => Seq::<u64>::empty(),
            },
            forall|q: int| p <= q < later@.len() ==> (#[trigger] later@[q])@ == refs_after(*block, q),
        decreases p,
    {
        let q = p - 1;
        let mut copy: Vec<u64> = Vec::new();
        let mut j: usize = 0;
        while j < acc.len()
            invariant
                0 <= j <= acc@.len(),
                copy@ == acc@.subrange(0, j as int),
            decreases acc@.len() - j,
        {
            copy.push(acc[j]);
            assert(copy@ =~= acc@.subrange(0, j + 1));
            j += 1;
        }
        assert(copy@ =~= acc@);
        assert(stmts@ == block.statements@);
        assert(p as int == q + 1);
        assert(refs_after(*block, q as int) == suffix_refs(block.statements@, q + 1) + result_refs);
        let ghost before = later@;
        let ghost copy_view = copy@;
        later.set(q, copy);
        assert forall|r: int| q <= r < later@.len() implies (#[trigger] later@[r])@ == refs_after(*block, r) by {
            if r > q {
                assert(later@[r] == before[r]);
            } else {
                assert(later@[r]@ == copy_view);
                assert(refs_after(*block, r) == suffix_refs(stmts@, p as int) + result_refs);
            }
        }
        let mut next: Vec<u64> = Vec::new();
        collect_statement_refs(&stmts[q].inner, &mut next);
        let mut j: usize = 0;
        let ghost head = next@;
        while j < acc.len()
            invariant
                0 <= j <= acc@.len(),
                next@ == head + acc@.subrange(0, j as int),
            decreases acc@.len() - j,
        {
            next.push(acc[j]);
            assert(next@ =~= head + acc@.subrange(0, j + 1));
            j += 1;
        }
        assert(acc@.subrange(0, j as int) =~= acc@);
        acc = next;
        assert(acc@ =~= suffix_refs(stmts@, q as int) + result_refs);
        p = q;
    }
    later
}

/// The statements of a pipeline body, where the body is a block.
pub open spec fn body_statements(body: Expression) -> Option<Seq<Loc<Statement>>> {
    match body.kind {
        ExprKind::Block(block) => Some(block.statements@),
        _ => None,
    }
}

proof fn lemma_guards_match(conds: Seq<Option<ValueName>>, guards: Seq<bool>)
    requires
        conds.len() == guards.len(),
        forall|j: int| 0 <= j < conds.len() ==> (#[trigger] conds[j] is Some) == guards[j],
    ensures
        forall|i: int| 0 <= i < conds.len() ==> #[trigger] needs_enable(conds, i) == guarded_from(guards, i),
{
    reveal(needs_enable);
    assert forall|i: int| 0 <= i < conds.len() implies #[trigger] needs_enable(conds, i) == guarded_from(guards, i) by {
        if needs_enable(conds, i) {
            let j = choose|j: int| i <= j < conds.len() && #[trigger] conds[j] is Some;
            assert(guards[j]);
        }
        if guarded_from(guards, i) {
            let j = choose|j: int| i <= j < guards.len() && #[trigger] guards[j];
            assert(conds[j] is Some);
        }
    }
}

/// Whether the signals of a pipeline context fit stage markers with the given guards:
/// one enable and one valid signal per stage; a stage has an enable signal exactly when
/// its own marker or a later one is guarded, and the last stage has none; stage 0 is
/// always valid, and a later stage has a valid signal exactly when a marker before it
/// is guarded.
pub open spec fn stage_signals(pc: PipelineContext, guards: Seq<bool>) -> bool {
    let n = guards.len();
    &&& pc.ready_signals@.len() == n + 1
    &&& pc.valid_signals@.len() == n + 1
    &&& pc.ready_signals@[n as int] is None
    &&& pc.valid_signals@[0] is None
    &&& forall|i: int| 0 <= i < n ==> (#[trigger] pc.ready_signals@[i] is Some) == guarded_from(guards, i)
    &&& forall|i: int| 0 <= i < n ==> (#[trigger] pc.valid_signals@[i + 1] is Some)
        == exists|j: int| 0 <= j <= i && #[trigger] guards[j]
}

/// Whether every variable that the tracker has available is known under its own name,
/// or under a pipelined copy of it that the name map pairs record.
pub open spec fn subs_consistent(subs: Substitutions, pairs: Seq<(u64, u64)>) -> bool {
    forall|i: int| 0 <= i < subs.vars@.len() && (#[trigger] subs.states()[i]) is Available ==>
        subs.states()[i]->Available_0 == subs.names()[i]
        || pairs.contains((subs.states()[i]->Available_0, subs.names()[i]))
}

/// Whether `key` is the signal that a stage guard denotes: the guard variable itself or
/// a pipelined copy of it that the name map pairs record, or the value of the guard
/// expression itself.
pub open spec fn guard_denotes(key: SignalKey, c: Loc<Expression>, pairs: Seq<(u64, u64)>) -> bool {
    match c.inner.kind {
        ExprKind::Identifier(n) => key is Named && (key->Named_0 == n.0 || pairs.contains((key->Named_0, n.0))),
        _ => key == SignalKey::Expr(c.inner.id),
    }
}

proof fn lemma_pairs_grow(a: Seq<(u64, u64)>, b: Seq<(u64, u64)>, x: (u64, u64))
    requires
        a.len() <= b.len(),
        b.subrange(0, a.len() as int) == a,
        a.contains(x),
    ensures
        b.contains(x),
{
    let j = choose|j: int| 0 <= j < a.len() && a[j] == x;
    assert(b.subrange(0, a.len() as int)[j] == b[j]);
}

proof fn lemma_guard_grows(key: SignalKey, c: Loc<Expression>, a: Seq<(u64, u64)>, b: Seq<(u64, u64)>)
    requires
        a.len() <= b.len(),
        b.subrange(0, a.len() as int) == a,
        guard_denotes(key, c, a),
    ensures
        guard_denotes(key, c, b),
{
    if c.inner.kind is Identifier {
        let n = c.inner.kind->Identifier_0;
        if key->Named_0 != n.0 {
            lemma_pairs_grow(a, b, (key->Named_0, n.0));
        }
    }
}

/// Recording names that become available leaves the tracker consistent with the map.
proof fn lemma_consistent_after_recording(old_subs: Substitutions, new_subs: Substitutions, bound: Seq<u64>, t: u128,
    types: TypeTable, pairs: Seq<(u64, u64)>)
    requires
        subs_consistent(old_subs, pairs),
        old_subs.names().len() <= new_subs.names().len(),
        new_subs.names().subrange(0, old_subs.names().len() as int) == old_subs.names(),
        forall|j: int| old_subs.names().len() <= j < new_subs.names().len() ==> bound.contains(#[trigger] new_subs.names()[j]),
        forall|i: int| 0 <= i < new_subs.vars@.len() ==> #[trigger] new_subs.states()[i] == (
            if bound.contains(new_subs.names()[i]) {
                initial_substitution(new_subs.names()[i], t, types.port_of(new_subs.names()[i])->Some_0)
            } else {
                old_subs.states()[i]
            }),
    ensures
        subs_consistent(new_subs, pairs),
{
    assert forall|i: int| 0 <= i < new_subs.vars@.len() && (#[trigger] new_subs.states()[i]) is Available implies
        new_subs.states()[i]->Available_0 == new_subs.names()[i]
        || pairs.contains((new_subs.states()[i]->Available_0, new_subs.names()[i])) by {
        if !bound.contains(new_subs.names()[i]) {
            assert(i < old_subs.names().len());
            assert(new_subs.names().subrange(0, old_subs.names().len() as int)[i] == new_subs.names()[i]);
            assert(old_subs.names()[i] == new_subs.names()[i]);
            assert(old_subs.states()[i] is Available);
        }
    }
}

/// Moving to the next stage leaves the tracker consistent with the map, which records
/// each copy made at the boundary.
proof fn lemma_consistent_after_stage(old_subs: Substitutions, new_subs: Substitutions, live: Seq<u64>, first: u64,
    before: Seq<(u64, u64)>, pairs: Seq<(u64, u64)>)
    requires
        old_subs.wf(),
        subs_consistent(old_subs, before),
        new_subs.names() == old_subs.names(),
        forall|i: int| 0 <= i < new_subs.vars@.len() ==> advanced(old_subs.names()[i],
            old_subs.states()[i], #[trigger] new_subs.states()[i], live.contains(old_subs.names()[i]),
            first + carried(old_subs.vars@.subrange(0, i), live).len()),
        pairs == before + carried(old_subs.vars@, live).map_values(|c: (u64, u64)| c.0).map(
            |k: int, o: u64| ((first + k) as u64, o)),
        first + carried(old_subs.vars@, live).len() <= u64::MAX,
    ensures
        subs_consistent(new_subs, pairs),
{
    let vars = old_subs.vars@;
    let carry = carried(vars, live);
    let fresh = carry.map_values(|c: (u64, u64)| c.0).map(|k: int, o: u64| ((first + k) as u64, o));
    assert forall|i: int| 0 <= i < new_subs.vars@.len() && (#[trigger] new_subs.states()[i]) is Available implies
        new_subs.states()[i]->Available_0 == new_subs.names()[i]
        || pairs.contains((new_subs.states()[i]->Available_0, new_subs.names()[i])) by {
        let name = old_subs.names()[i];
        assert(old_subs.names().len() == vars.len());
        match old_subs.states()[i] {
            SubstitutionKey::Available(m) => {
                if live.contains(name) {
                    let k = carried(vars.subrange(0, i), live).len() as int;
                    lemma_carried_prefix(vars, live, i + 1);
                    assert(vars.subrange(0, i + 1).drop_last() =~= vars.subrange(0, i));
                    assert(old_subs.states()[i] == vars[i].1.key());
                    assert(vars.subrange(0, i + 1).last() == vars[i]);
                    assert(carried(vars.subrange(0, i + 1), live)[k] == (vars[i].0.0, vars[i].1->Available_0.0));
                    assert(carry[k] == (vars[i].0.0, vars[i].1->Available_0.0));
                    assert(name == vars[i].0.0);
                    assert(fresh[k] == ((first + k) as u64, name));
                    assert(pairs[before.len() + k] == fresh[k]);
                    assert(new_subs.states()[i]->Available_0 == (first + k) as u64);
                    assert(pairs.contains(((first + k) as u64, name)));
                } else {
                    assert(before.contains((m, name)) ==> pairs.contains((m, name))) by {
                        if before.contains((m, name)) {
                            let j = choose|j: int| 0 <= j < before.len() && before[j] == (m, name);
                            assert(pairs[j] == before[j]);
                        }
                    }
                }
            },
            _ => {},
        }
    }
}

proof fn lemma_guard_key_denotes(c: Loc<Expression>, subs: Substitutions, pairs: Seq<(u64, u64)>)
    requires
        subs_consistent(subs, pairs),
        guard_key(c, subs) is Ok,
    ensures
        guard_denotes(guard_key(c, subs)->Ok_0, c, pairs),
{
    if c.inner.kind is Identifier {
        let n = c.inner.kind->Identifier_0;
        if state_of(subs, n.0) is Some {
            let i = choose|i: int| 0 <= i < subs.vars@.len() && subs.vars@[i].0.0 == n.0;
            assert(subs.names()[i] == n.0);
            assert(subs.states()[i] == subs.vars@[i].1.key());
        }
    }
}

/// The number of names that the first `n` statements of a list bind.
pub open spec fn total_bound(stmts: Seq<Loc<Statement>>, n: int) -> nat
    decreases n,
{
    if n <= 0 || n > stmts.len() {
        0
    } else {
        total_bound(stmts, n - 1) + bound_count(stmts[n - 1].inner)
    }
}

proof fn lemma_total_bound_grows(stmts: Seq<Loc<Statement>>, p: int, q: int)
    requires
        0 <= p <= q <= stmts.len(),
    ensures
        total_bound(stmts, p) <= total_bound(stmts, q),
    decreases q - p,
{
    if p < q {
        lemma_total_bound_grows(stmts, p, q - 1);
    }
}

/// Whether a statement of the list binds `n` to a value that arrives in a later stage.
pub open spec fn bound_late(stmts: Seq<Loc<Statement>>, n: u64) -> bool {
    exists|q: int| 0 <= q < stmts.len() && #[trigger] bound_by(stmts[q].inner) is Some && {
        let (pattern, value) = bound_by(stmts[q].inner)->Some_0;
        &&& availability(value.kind) is Ok
        &&& availability(value.kind)->Ok_0 != 0
        &&& pattern_names(pattern.kind).contains(n)
    }
}

/// Whether statement `p` of a pipeline body can be lowered: it is no declaration, the
/// names it binds have types and its value has an availability, and a guard that is a
/// variable does not name one whose value arrives in a later stage.
pub open spec fn statement_lowerable(stmts: Seq<Loc<Statement>>, p: int, types: TypeTable) -> bool {
    match stmts[p].inner {
        Statement::Declaration(_) => false,
        Statement::PipelineRegMarker(Some(c)) => match c.inner.kind {
            ExprKind::Identifier(n) => !bound_late(stmts, n.0),
            _ => true,
        },
        s => match bound_by(s) {
            Some((pattern, value)) => availability(value.kind) is Ok && all_typed(types, pattern_names(pattern.kind)),
            None => true,
        },
    }
}

/// The most variables a lowering can track: those already tracked, the inputs, and
/// every name the body binds.
pub open spec fn variable_bound(inputs: Seq<(Loc<NameID>, Loc<TypeSpec>)>, stmts: Seq<Loc<Statement>>, ctx: Context) -> int {
    (ctx.subs.vars@.len() + inputs.len() + total_bound(stmts, stmts.len() as int)) as int
}

/// Whether lowering the pipeline is owed success: it has a clock and a block body; the
/// inputs and the variables already tracked have types, and none of the latter is
/// still waiting for its value; every statement can be lowered; the name map only
/// holds names handed out before; and the identifier space suffices.
pub open spec fn pipeline_lowerable(
    inputs: Seq<(Loc<NameID>, Loc<TypeSpec>)>,
    body: Expression,
    ctx: Context,
    name_map: Seq<(NameID, NameID)>,
) -> bool {
    &&& inputs.len() > 0
    &&& body_statements(body) is Some
    &&& forall|i: int| 0 <= i < inputs.len() ==> (#[trigger] ctx.types.port_of(inputs[i].0.inner.0)) is Some
    &&& forall|i: int| 0 <= i < ctx.subs.vars@.len() ==> (#[trigger] ctx.types.port_of(ctx.subs.names()[i])) is Some
    &&& forall|i: int| 0 <= i < ctx.subs.vars@.len() ==> !(#[trigger] ctx.subs.states()[i] is Waiting)
    &&& forall|p: int| 0 <= p < body_statements(body)->Some_0.len() ==>
        #[trigger] statement_lowerable(body_statements(body)->Some_0, p, ctx.types)
    &&& forall|e: int| 0 <= e < name_map.len() ==> (#[trigger] name_map[e]).0.0 < ctx.idtracker.next_id
    &&& {
        let stmts = body_statements(body)->Some_0;
        let v = variable_bound(inputs, stmts, ctx);
        &&& v <= u64::MAX / 4
        &&& stmts.len() <= u64::MAX / 4
        &&& ctx.idtracker.next_id + 3 * stmts.len() + 2 * stmts.len() * v <= u64::MAX
    }
}

/// Whether the statements from `start` on wire the signals of `pc` for stage markers
/// with the local conditions `conds`: each enable signal is defined from its stage's
/// local condition and the next stage's enable signal, and each valid signal after
/// stage 0 is a register, clocked by `clock`, that delays the combined validity
/// condition of the boundary before it by one cycle.
pub open spec fn wires_signals(stmts: Seq<mir::Statement>, start: int, clock: SignalKey, pc: PipelineContext, conds: Seq<Option<ValueName>>) -> bool {
    let n = conds.len() as int;
    &&& forall|i: int| 0 <= i < n && needs_enable(conds, i) ==>
        enable_defined(stmts, start, conds, pc.ready_signals@.subrange(0, n), i)
    &&& forall|i: int| 0 <= i < n && (#[trigger] pc.valid_signals@[i + 1]) is Some ==>
        latches_validity(stmts, start, clock, opt_key(conds[i]), opt_key(pc.valid_signals@[i]),
            pc.valid_signals@[i + 1]->Some_0.key())
}

proof fn lemma_enable_defined_widen(s1: Seq<mir::Statement>, s2: Seq<mir::Statement>, lo: int, start: int,
    conds: Seq<Option<ValueName>>, slots: Seq<Option<ValueName>>, i: int)
    requires
        0 <= lo <= start,
        s1.len() <= s2.len(),
        forall|k: int| 0 <= k < s1.len() ==> s2[k] == s1[k],
        enable_defined(s1, start, conds, slots, i),
    ensures
        enable_defined(s2, lo, conds, slots, i),
{
    reveal(enable_defined);
    let k = choose|k: int| start <= k < s1.len() && defines_enable(#[trigger] s1[k], conds, slots, i);
    assert(s2[k] == s1[k]);
}

proof fn lemma_latches_widen(stmts: Seq<mir::Statement>, lo: int, start: int, clock: SignalKey,
    local: Option<SignalKey>, prev: Option<SignalKey>, target: SignalKey)
    requires
        0 <= lo <= start,
        latches_validity(stmts, start, clock, local, prev, target),
    ensures
        latches_validity(stmts, lo, clock, local, prev, target),
{
    reveal(latches_validity);
    let (k, c) = choose|k: int, c: SignalKey| start <= k < stmts.len()
        && #[trigger] is_register(stmts[k], target, clock, c)
        && combines_validity(stmts, start, c, local, prev);
    if local is Some && prev is Some {
        let k2 = choose|k2: int| start <= k2 < stmts.len()
            && is_binding(#[trigger] stmts[k2], c, Operator::LogicalAnd, seq![local->Some_0, prev->Some_0]);
        assert(lo <= k2);
    }
    assert(combines_validity(stmts, lo, c, local, prev));
}

/// A pipeline without stage markers lowers as a combinational unit: a single stage
/// that is always enabled and always valid.
pub proof fn lemma_no_stages_is_combinational(pc: PipelineContext, guards: Seq<bool>)
    requires
        stage_signals(pc, guards),
        guards.len() == 0,
    ensures
        pc.ready_signals@ == seq![None::<ValueName>],
        pc.valid_signals@ == seq![None::<ValueName>],
{
    assert(pc.ready_signals@ =~= seq![None::<ValueName>]);
    assert(pc.valid_signals@ =~= seq![None::<ValueName>]);
}

/// Lowers a pipeline: its first input is the clock of every register it synthesizes,
/// and its body is a block whose stage markers divide it into stages. Records in which
/// stage each variable exists, carries live variables across each stage boundary in
/// registers, and defines for each stage an enable signal (`None` where the stage can
/// never stall) and a valid signal (`None` where it is always valid), which it leaves
/// in the context. It succeeds on every pipeline that `pipeline_lowerable` accepts; a
/// failure is an internal error, a guard used before its value exists, or the
/// availability error of one of the body's statements. A guard that is not a plain
/// variable is referred to by its expression id: the caller's expression lowering must
/// define that value, as it does for every other expression of the body.
#[verifier::rlimit(100)]
#[verifier::spinoff_prover]
pub fn lower_pipeline(
    hir_inputs: &Vec<(Loc<NameID>, Loc<TypeSpec>)>,
    body: &Loc<Expression>,
    statements: &mut Vec<mir::Statement>,
    ctx: &mut Context,
    name_map: &mut Vec<(NameID, NameID)>,
) -> (r: Result<(), Error>)
    requires
        old(ctx).subs.wf(),
    ensures
        pipeline_lowerable(hir_inputs@, body.inner, *old(ctx), old(name_map)@) ==> r is Ok,
        hir_inputs@.len() == 0 ==> r == Err::<(), Error>(Error::Internal(InternalError::MissingClock)),
        hir_inputs@.len() > 0 && body_statements(body.inner) is None
            ==> r == Err::<(), Error>(Error::Internal(InternalError::BodyNotBlock)),
        old(statements)@.len() <= final(statements)@.len(),
        final(statements)@.subrange(0, old(statements)@.len() as int) == old(statements)@,
        hir_inputs@.len() > 0 ==> forall|k: int| old(statements)@.len() <= k < final(statements)@.len()
            ==> clocked_by(#[trigger] final(statements)@[k], SignalKey::Named(hir_inputs@[0].0.inner.0)),
        r is Ok && stage_guards(body_statements(body.inner)->Some_0).len() == 0
            ==> final(statements)@ == old(statements)@ && final(name_map)@ == old(name_map)@,
        r is Ok && (forall|j: int| 0 <= j < stage_guards(body_statements(body.inner)->Some_0).len()
            ==> !#[trigger] stage_guards(body_statements(body.inner)->Some_0)[j])
            ==> forall|k: int| old(statements)@.len() <= k < final(statements)@.len()
                ==> is_copy_register(#[trigger] final(statements)@[k]),
        r is Ok ==> exists|trace: Seq<Substitutions>, firsts: Seq<int>| {
            &&& #[trigger] lowering_trace(trace, firsts, *(body.inner.kind->Block_0),
                pipeline_input_ids(hir_inputs@), old(ctx).subs, old(ctx).types,
                final(statements)@, old(statements)@.len() as int, SignalKey::Named(hir_inputs@[0].0.inner.0),
                final(ctx).pipeline_context->Pipeline_0.ready_signals@)
            &&& final(ctx).subs == trace.last()
        },
        r is Ok ==> forall|i: int| 0 <= i < final(ctx).pipeline_context->Pipeline_0.valid_signals@.len()
            ==> #[trigger] final(ctx).pipeline_context->Pipeline_0.valid_signals@[i] is None
                || fresh_between(final(ctx).pipeline_context->Pipeline_0.valid_signals@[i],
                    old(ctx).idtracker.next_id as int, final(ctx).idtracker.next_id as int),
        r is Ok ==> old(name_map)@.len() <= final(name_map)@.len()
            && map_pairs(final(name_map)@).subrange(0, old(name_map)@.len() as int) == map_pairs(old(name_map)@),
        r is Ok ==> forall|e: int| old(name_map)@.len() <= e < final(name_map)@.len() ==> copy_registered(
            final(statements)@, old(statements)@.len() as int,
            (#[trigger] map_pairs(final(name_map)@)[e]).0, map_pairs(final(name_map)@)[e].1),
        r is Ok ==> forall|k: int| old(statements)@.len() <= k < final(statements)@.len()
            && is_copy_register(#[trigger] final(statements)@[k]) ==> exists|e: int|
                old(name_map)@.len() <= e < final(name_map)@.len()
                && is_copy_of(final(statements)@[k], map_pairs(final(name_map)@)[e].0, map_pairs(final(name_map)@)[e].1),
        r is Ok ==> final(ctx).pipeline_context is Pipeline && stage_signals(
            final(ctx).pipeline_context->Pipeline_0,
            stage_guards(body_statements(body.inner)->Some_0),
        ),
        r is Err ==> r->Err_0 is Internal || r->Err_0 is UseBeforeReady
            || exists|p: int| 0 <= p < body_statements(body.inner)->Some_0.len()
                && #[trigger] bound_by(body_statements(body.inner)->Some_0[p].inner) is Some
                && availability(bound_by(body_statements(body.inner)->Some_0[p].inner)->Some_0.1.kind)
                    == Err::<u128, Error>(r->Err_0),
        r is Ok ==> exists|conds: Seq<Option<ValueName>>| {
            &&& conds.len() == stage_guards(body_statements(body.inner)->Some_0).len()
            &&& forall|j: int| 0 <= j < conds.len() ==>
                (#[trigger] conds[j] is Some) == stage_guards(body_statements(body.inner)->Some_0)[j]
            &&& wires_signals(final(statements)@, old(statements)@.len() as int,
                SignalKey::Named(hir_inputs@[0].0.inner.0), final(ctx).pipeline_context->Pipeline_0, conds)
            &&& exists|a: int, b: int| #[trigger] signal_blocks(final(statements)@, old(statements)@.len() as int, a, b, conds,
                final(ctx).pipeline_context->Pipeline_0.ready_signals@.subrange(0, conds.len() as int),
                SignalKey::Named(hir_inputs@[0].0.inner.0))
            &&& subs_consistent(old(ctx).subs, map_pairs(old(name_map)@)) ==> forall|j: int|
                0 <= j < conds.len() && (#[trigger] conds[j]) is Some ==> guard_denotes(conds[j]->Some_0.key(),
                    stage_conds(body_statements(body.inner)->Some_0)[j]->Some_0, map_pairs(final(name_map)@))
        },
{
    if hir_inputs.len() == 0 {
        return Err(Error::Internal(InternalError::MissingClock));
    }
    let clock = &hir_inputs[0].0.inner;
    let block: &Block = match &body.inner.kind {
        ExprKind::Block(block) => block,
        _ => {
            return Err(Error::Internal(InternalError::BodyNotBlock));
        },
    };
    let body_stmts = &block.statements;
    let ghost guards = stage_guards(body_stmts@);
    let ghost ok = pipeline_lowerable(hir_inputs@, body.inner, *old(ctx), old(name_map)@);
    let ghost ctx0 = *old(ctx);
    let ghost stmts = body_stmts@;
    let ghost big_s = stmts.len() as int;
    let ghost big_v = variable_bound(hir_inputs@, stmts, ctx0);
    assert(body_statements(body.inner) == Some(stmts));

    let mut input_names: Vec<NameID> = Vec::new();
    let mut k: usize = 0;
    while k < hir_inputs.len()
        invariant
            0 <= k <= hir_inputs@.len(),
            input_names@.len() == k,
            forall|j: int| 0 <= j < k ==> (#[trigger] input_names@[j]).0 == hir_inputs@[j].0.inner.0,
        decreases hir_inputs@.len() - k,
    {
        input_names.push(hir_inputs[k].0.inner.clone());
        k += 1;
    }
    let ghost input_ids = input_names@.map_values(|n: NameID| n.0);
    let ghost consistent0 = subs_consistent(ctx0.subs, map_pairs(old(name_map)@));
    let ghost subs_before_inputs = ctx.subs;
    match set_names_available(ctx, &input_names, 0) {
        Ok(()) => {},
        Err(e) => {
            proof {
                if ok {
                    assert forall|j: int| 0 <= j < input_ids.len() implies
                        (#[trigger] ctx0.types.port_of(input_ids[j])) is Some by {
                        assert(input_ids[j] == hir_inputs@[j].0.inner.0);
                    }
                }
            }
            return Err(e);
        },
    }
    proof {
        assert(ctx.subs.names().subrange(0, ctx0.subs.names().len() as int) == ctx0.subs.names());
        assert(ctx0 == *old(ctx));
        if ok {
            assert forall|i: int| 0 <= i < ctx.subs.vars@.len() implies
                (#[trigger] ctx.types.port_of(ctx.subs.names()[i])) is Some by {
                assert(ctx.types == ctx0.types);
                if i < ctx0.subs.vars@.len() {
                    assert(ctx0.subs.names().len() == ctx0.subs.vars@.len());
                    assert(ctx.subs.names().subrange(0, ctx0.subs.names().len() as int)[i] == ctx.subs.names()[i]);
                    assert(ctx.subs.names()[i] == ctx0.subs.names()[i]);
                    assert(ctx0.types.port_of(ctx0.subs.names()[i]) is Some);
                } else {
                    assert(i < ctx.subs.names().len());
                    assert(input_ids.contains(ctx.subs.names()[i]));
                    let j = choose|j: int| 0 <= j < input_ids.len() && input_ids[j] == ctx.subs.names()[i];
                    assert(input_ids[j] == input_names@[j].0);
                    assert(input_ids[j] == hir_inputs@[j].0.inner.0);
                    assert(ctx0.types.port_of(hir_inputs@[j].0.inner.0) is Some);
                }
            }
            assert forall|i: int| 0 <= i < ctx.subs.vars@.len() && (#[trigger] ctx.subs.states()[i]) is Waiting
                implies bound_late(stmts, ctx.subs.names()[i]) by {
                if !input_ids.contains(ctx.subs.names()[i]) {
                    if i >= ctx0.subs.vars@.len() {
                        assert(input_ids.contains(ctx.subs.names()[i]));
                    }
                }
            }
        }
    }

    let ghost hir_ids = pipeline_input_ids(hir_inputs@);
    let ghost mut trace: Seq<Substitutions> = seq![ctx.subs];
    let ghost mut firsts: Seq<int> = Seq::empty();
    proof {
        assert(input_ids =~= hir_ids) by {
            assert forall|j: int| 0 <= j < input_ids.len() implies input_ids[j] == hir_ids[j] by {
                assert(input_ids[j] == input_names@[j].0);
            }
        }
        assert(records(ctx0.subs, trace[0], hir_ids, 0, ctx0.types));
    }
    proof {
        lemma_stage_conds(stmts);
        if consistent0 {
            lemma_consistent_after_recording(ctx0.subs, ctx.subs, input_ids, 0, ctx0.types, map_pairs(name_map@));
        }
    }
    if ctx.idtracker.next_id > u64::MAX - (body_stmts.len() as u64) {
        return Err(Error::Internal(InternalError::IdentifiersExhausted));
    }
    let stage_enable_names = enable_slots(body_stmts, &mut ctx.idtracker);
    let n = stage_enable_names.len();
    let ghost s0 = ctx.idtracker.next_id as int;
    proof {
        lemma_stage_count_bound(stmts);
        assert(total_bound(stmts, 0) == 0);
        if ok {
            assert(ctx.subs.vars@.len() <= ctx0.subs.vars@.len() + hir_inputs@.len());
            assert(s0 <= ctx0.idtracker.next_id + big_s);
        }
    }

    let later = references_after(block);

    let mut current_stage: usize = 0;
    let mut local_conds: Vec<Option<ValueName>> = Vec::new();
    let mut p: usize = 0;
    while p < body_stmts.len()
        invariant
            0 <= p <= body_stmts@.len(),
            guards == stage_guards(body_stmts@),
            n == guards.len(),
            stage_enable_names@.len() == n,
            forall|i: int| 0 <= i < n ==> (#[trigger] stage_enable_names@[i] is Some) == guarded_from(guards, i),
            ctx.subs.wf(),
            current_stage == stage_guards(body_stmts@.subrange(0, p as int)).len(),
            current_stage <= n,
            local_conds@.len() == current_stage,
            forall|j: int| 0 <= j < current_stage ==> (#[trigger] local_conds@[j] is Some) == guards[j],
            statements@.subrange(0, old(statements)@.len() as int) == old(statements)@,
            old(statements)@.len() <= statements@.len(),
            hir_inputs@.len() > 0,
            body_statements(body.inner) == Some(body_stmts@),
            later@.len() == body_stmts@.len(),
            stmts == body_stmts@,
            big_s == stmts.len(),
            big_v == variable_bound(hir_inputs@, stmts, ctx0),
            ctx0 == *old(ctx),
            clock.0 == hir_inputs@[0].0.inner.0,
            forall|k: int| old(statements)@.len() <= k < statements@.len() ==> is_carry_statement(#[trigger] statements@[k]),
            old(ctx).idtracker.next_id <= ctx.idtracker.next_id,
            *block == *(body.inner.kind->Block_0),
            trace.len() == p + 1,
            firsts.len() == p,
            forall|q: int| 0 <= q < later@.len() ==> (#[trigger] later@[q])@ == refs_after(*block, q),
            trace[p as int] == ctx.subs,
            records(ctx0.subs, trace[0], hir_ids, 0, ctx0.types),
            forall|q: int| 0 <= q < p ==> tracks(*block, q, #[trigger] trace[q], trace[q + 1], ctx0.types, firsts[q]),
            forall|q: int| 0 <= q < p && (#[trigger] stmts[q]).inner is PipelineRegMarker ==> stage_of(stmts, q) < n
                && carries_all(statements@, old(statements)@.len() as int, SignalKey::Named(clock.0),
                    opt_key(stage_enable_names@[stage_of(stmts, q)]), carried(trace[q].vars@, refs_after(*block, q))),
            forall|k: int| old(statements)@.len() <= k < statements@.len()
                ==> clocked_by(#[trigger] statements@[k], SignalKey::Named(clock.0)),
            current_stage == 0 ==> statements@ == old(statements)@ && name_map@ == old(name_map)@,
            old(name_map)@.len() <= name_map@.len(),
            map_pairs(name_map@).subrange(0, old(name_map)@.len() as int) == map_pairs(old(name_map)@),
            consistent0 == subs_consistent(ctx0.subs, map_pairs(old(name_map)@)),
            consistent0 ==> subs_consistent(ctx.subs, map_pairs(name_map@)),
            consistent0 ==> forall|j: int| 0 <= j < current_stage && (#[trigger] local_conds@[j]) is Some
                ==> guard_denotes(local_conds@[j]->Some_0.key(), stage_conds(stmts)[j]->Some_0, map_pairs(name_map@)),
            stage_conds(stmts).len() == n,
            forall|e: int| old(name_map)@.len() <= e < name_map@.len() ==> copy_registered(
                statements@, old(statements)@.len() as int,
                (#[trigger] map_pairs(name_map@)[e]).0, map_pairs(name_map@)[e].1),
            forall|k: int| old(statements)@.len() <= k < statements@.len()
                && is_copy_register(#[trigger] statements@[k]) ==> exists|e: int|
                    old(name_map)@.len() <= e < name_map@.len()
                    && is_copy_of(statements@[k], map_pairs(name_map@)[e].0, map_pairs(name_map@)[e].1),
            (forall|j: int| 0 <= j < n ==> !#[trigger] guards[j])
                ==> forall|k: int| old(statements)@.len() <= k < statements@.len()
                    ==> is_copy_register(#[trigger] statements@[k]),
            ok == pipeline_lowerable(hir_inputs@, body.inner, ctx0, old(name_map)@),
            n <= big_s,
            ctx.types == ctx0.types,
            ok ==> pipeline_lowerable(hir_inputs@, body.inner, ctx0, old(name_map)@),
            ok ==> s0 <= ctx0.idtracker.next_id + big_s,
            ok ==> ctx.idtracker.next_id <= s0 + 2 * p * big_v,
            ok ==> ctx.subs.vars@.len() <= ctx0.subs.vars@.len() + hir_inputs@.len() + total_bound(stmts, p as int),
            ok ==> forall|i: int| 0 <= i < ctx.subs.vars@.len() ==>
                (#[trigger] ctx.types.port_of(ctx.subs.names()[i])) is Some,
            ok ==> forall|i: int| 0 <= i < ctx.subs.vars@.len() && (#[trigger] ctx.subs.states()[i]) is Waiting
                ==> bound_late(stmts, ctx.subs.names()[i]),
            ok ==> forall|e: int| 0 <= e < name_map@.len() ==> (#[trigger] name_map@[e]).0.0 < ctx.idtracker.next_id,
        decreases body_stmts@.len() - p,
    {
        proof {
            lemma_stage_guards_prefix(body_stmts@, p as int);
            lemma_stage_guards_prefix(body_stmts@, p + 1);
            assert(body_stmts@.subrange(0, p + 1).drop_last() =~= body_stmts@.subrange(0, p as int));
        }
        proof {
            if ok {
                lemma_total_bound_grows(stmts, p as int, big_s);
                assert(total_bound(stmts, p as int) <= total_bound(stmts, big_s));
                assert(big_v == ctx0.subs.vars@.len() + hir_inputs@.len() + total_bound(stmts, big_s));
                assert(ctx.subs.vars@.len() <= big_v);
                assert(p + 1 <= big_s);
                assert(2 * p * big_v + 2 * big_v <= 2 * big_s * big_v) by (nonlinear_arith)
                    requires p + 1 <= big_s, 0 <= big_v;
                assert(ctx0.idtracker.next_id + 3 * big_s + 2 * big_s * big_v <= u64::MAX);
                assert(ctx.idtracker.next_id + 2 * ctx.subs.vars@.len() <= u64::MAX);
                assert(big_v <= u64::MAX / 4);
                assert(statement_lowerable(stmts, p as int, ctx0.types));
            }
        }
        let live = ctx.subs.vars.len() as u64;
        if live > u64::MAX / 4 {
            return Err(Error::Internal(InternalError::IdentifiersExhausted));
        }
        if ctx.idtracker.next_id > u64::MAX - 2 * live {
            return Err(Error::Internal(InternalError::IdentifiersExhausted));
        }
        let ghost before_map = name_map@;
        let ghost before_ids = ctx.idtracker.next_id;
        let ghost before_stmts = statements@;
        let ghost before_conds = local_conds@;
        let ghost old_stage = current_stage;
        let ghost old_subs = ctx.subs;
        let ghost live = later[p as int];
        proof {
            if body_stmts@[p as int].inner is PipelineRegMarker {
                assert(stage_guards(body_stmts@.subrange(0, p + 1)).len() == current_stage + 1);
            }
        }
        let step = handle_statement(
            &body_stmts[p],
            ctx,
            name_map,
            statements,
            clock,
            &mut local_conds,
            &stage_enable_names,
            &mut current_stage,
            &later[p],
        );
        match step {
            Ok(()) => {},
            Err(e) => {
                proof {
                    let st = body_stmts@[p as int].inner;
                    if bound_by(st) is Some {
                        if availability(bound_by(st)->Some_0.1.kind) is Err {
                            assert(bound_by(body_statements(body.inner)->Some_0[p as int].inner) is Some);
                        }
                    } else if st is PipelineRegMarker {
                        let cond = st->PipelineRegMarker_0;
                        if cond is Some {
                            let c = cond->Some_0;
                            if guard_key(c, old_subs) is Err {
                                assert(e is UseBeforeReady);
                            }
                        }
                    }
                    assert forall|k: int| old(statements)@.len() <= k < statements@.len()
                        implies clocked_by(#[trigger] statements@[k], SignalKey::Named(clock.0)) by {
                        if k < before_stmts.len() {
                            assert(statements@[k] == statements@.subrange(0, before_stmts.len() as int)[k]);
                        }
                    }
                    assert(statements@.subrange(0, old(statements)@.len() as int)
                        =~= before_stmts.subrange(0, old(statements)@.len() as int));
                    assert(!ok) by {
                        if ok {
                            assert(statement_lowerable(stmts, p as int, ctx0.types));
                            match st {
                                Statement::PipelineRegMarker(cond) => {
                                    if cond is Some {
                                        let c = cond->Some_0;
                                        if c.inner.kind is Identifier {
                                            let n = c.inner.kind->Identifier_0;
                                            if state_of(old_subs, n.0) is Some {
                                                let i = choose|i: int| 0 <= i < old_subs.vars@.len() && old_subs.vars@[i].0.0 == n.0;
                                                assert(old_subs.names()[i] == n.0);
                                                assert(old_subs.states()[i] == old_subs.vars@[i].1.key());
                                            }
                                        }
                                    }
                                    lemma_carried_filter(old_subs.vars@, live@);
                                    let carry = carried(old_subs.vars@, live@);
                                    let origs = carry.map_values(|c: (u64, u64)| c.0);
                                    assert forall|k: int| 0 <= k < origs.len() implies
                                        (#[trigger] ctx0.types.port_of(origs[k])) is Some by {
                                        let i = choose|i: int| 0 <= i < old_subs.vars@.len()
                                            && old_subs.vars@[i].0.0 == #[trigger] carry[k].0;
                                        assert(old_subs.names()[i] == origs[k]);
                                    }
                                    lemma_carried_len(old_subs.vars@, live@);
                                    let fresh = origs.map(|k: int, o: u64| ((before_ids + k) as u64, o));
                                    assert forall|k: int, e: int| 0 <= k < fresh.len() && 0 <= e < map_pairs(before_map).len()
                                        implies #[trigger] map_pairs(before_map)[e].0 != #[trigger] fresh[k].0 by {
                                        assert(map_pairs(before_map)[e].0 == before_map[e].0.0);
                                    }
                                },
                                _ => {},
                            }
                        }
                    }
                }
                return Err(e);
            },
        }
        proof {
            match body_stmts@[p as int].inner {
                Statement::PipelineRegMarker(cond) => {
                    assert(stage_guards(body_stmts@.subrange(0, p + 1))
                        == stage_guards(body_stmts@.subrange(0, p as int)).push(cond is Some));
                    assert(stage_guards(body_stmts@.subrange(0, p + 1))[old_stage as int] == (cond is Some));
                    assert(guards[old_stage as int] == (cond is Some));
                    assert forall|j: int| 0 <= j < current_stage implies (#[trigger] local_conds@[j] is Some) == guards[j] by {
                        if j < old_stage {
                            assert(local_conds@.subrange(0, before_conds.len() as int)[j] == before_conds[j]);
                        }
                    }
                },
                _ => {
                    assert(stage_guards(body_stmts@.subrange(0, p + 1)) == stage_guards(body_stmts@.subrange(0, p as int)));
                },
            }
            assert(statements@.subrange(0, old(statements)@.len() as int)
                =~= before_stmts.subrange(0, old(statements)@.len() as int));
            assert forall|k: int| old(statements)@.len() <= k < statements@.len()
                implies clocked_by(#[trigger] statements@[k], SignalKey::Named(clock.0)) by {
                if k < before_stmts.len() {
                    assert(statements@[k] == before_stmts[k]);
                }
            }
            assert(consistent0 ==> (subs_consistent(ctx.subs, map_pairs(name_map@))
                && forall|j: int| 0 <= j < current_stage && (#[trigger] local_conds@[j]) is Some
                    ==> guard_denotes(local_conds@[j]->Some_0.key(), stage_conds(stmts)[j]->Some_0, map_pairs(name_map@))))
            by {
                if consistent0 {
                    let st = body_stmts@[p as int].inner;
                    let bp = map_pairs(before_map);
                    let np = map_pairs(name_map@);
                    lemma_stage_conds_prefix(body_stmts@, p as int);
                    lemma_stage_conds_prefix(body_stmts@, p + 1);
                    lemma_stage_conds(body_stmts@.subrange(0, p as int));
                    if st is PipelineRegMarker {
                        let cond = st->PipelineRegMarker_0;
                        let carry = carried(old_subs.vars@, live@);
                        assert(np == bp + carry.map_values(|c: (u64, u64)| c.0).map(|k: int, o: u64| ((before_ids + k) as u64, o)));
                        assert(np.subrange(0, bp.len() as int) =~= bp);
                        lemma_consistent_after_stage(old_subs, ctx.subs, live@, before_ids, bp, np);
                        assert(stage_conds(body_stmts@.subrange(0, p + 1))
                            == stage_conds(body_stmts@.subrange(0, p as int)).push(cond));
                        assert(stage_conds(body_stmts@.subrange(0, p + 1))[old_stage as int] == cond);
                        assert(stage_conds(stmts)[old_stage as int] == cond);
                        assert forall|j: int| 0 <= j < current_stage && (#[trigger] local_conds@[j]) is Some
                            implies guard_denotes(local_conds@[j]->Some_0.key(), stage_conds(stmts)[j]->Some_0, np) by {
                            if j < old_stage {
                                assert(local_conds@.subrange(0, before_conds.len() as int)[j] == before_conds[j]);
                                lemma_guard_grows(before_conds[j]->Some_0.key(), stage_conds(stmts)[j]->Some_0, bp, np);
                            } else {
                                let c = cond->Some_0;
                                lemma_guard_key_denotes(c, old_subs, bp);
                                lemma_guard_grows(guard_key(c, old_subs)->Ok_0, c, bp, np);
                            }
                        }
                    } else {
                        assert(np == bp);
                        match bound_by(st) {
                            Some((pattern, value)) => {
                                let t = availability(value.kind)->Ok_0;
                                lemma_consistent_after_recording(old_subs, ctx.subs, pattern_names(pattern.kind), t,
                                    ctx0.types, np);
                            },
                            None => {},
                        }
                    }
                }
            }
            lemma_copies_step(body_stmts@[p as int].inner, before_stmts, statements@, before_map, name_map@,
                old(statements)@.len() as int, old(name_map)@, old_subs, live@, before_ids, clock.0,
                opt_key(stage_enable_names@[old_stage as int]));
            if forall|j: int| 0 <= j < n ==> !#[trigger] guards[j] {
                if body_stmts@[p as int].inner is PipelineRegMarker {
                    assert(!guarded_from(guards, old_stage as int));
                    assert(stage_enable_names@[old_stage as int] is None);
                }
                assert forall|k: int| old(statements)@.len() <= k < statements@.len()
                    implies is_copy_register(#[trigger] statements@[k]) by {
                    if k < before_stmts.len() {
                        assert(statements@[k] == before_stmts[k]);
                    }
                }
            }
            assert(total_bound(stmts, p + 1) == total_bound(stmts, p as int) + bound_count(stmts[p as int].inner));
            assert(ok ==> (ctx.idtracker.next_id <= s0 + 2 * (p + 1) * big_v
                && (forall|i: int| 0 <= i < ctx.subs.vars@.len() ==>
                    (#[trigger] ctx.types.port_of(ctx.subs.names()[i])) is Some)
                && (forall|e: int| 0 <= e < name_map@.len() ==> (#[trigger] name_map@[e]).0.0 < ctx.idtracker.next_id))) by {
                if ok {
                    assert(2 * p * big_v + 2 * big_v == 2 * (p + 1) * big_v) by (nonlinear_arith);
                    assert(old_subs.vars@.len() <= big_v);
                    let st = stmts[p as int].inner;
                    assert(statement_lowerable(stmts, p as int, ctx0.types));
                    assert forall|i: int| 0 <= i < ctx.subs.vars@.len() implies
                        (#[trigger] ctx.types.port_of(ctx.subs.names()[i])) is Some by {
                        if i < old_subs.vars@.len() {
                            assert(old_subs.names().len() == old_subs.vars@.len());
                            assert(ctx.subs.names().subrange(0, old_subs.names().len() as int)[i] == ctx.subs.names()[i]);
                            assert(ctx.subs.names()[i] == old_subs.names()[i]);
                        } else {
                            let (pattern, value) = bound_by(st)->Some_0;
                            let names = pattern_names(pattern.kind);
                            assert(names.contains(ctx.subs.names()[i]));
                            let j = choose|j: int| 0 <= j < names.len() && names[j] == ctx.subs.names()[i];
                            assert(ctx0.types.port_of(names[j]) is Some);
                        }
                    }
                    assert forall|e: int| 0 <= e < name_map@.len() implies
                        (#[trigger] name_map@[e]).0.0 < ctx.idtracker.next_id by {
                        if st is PipelineRegMarker {
                            assert(map_pairs(name_map@)[e].0 == name_map@[e].0.0);
                            if e < before_map.len() {
                                assert(map_pairs(name_map@)[e] == map_pairs(before_map)[e]);
                                assert(map_pairs(before_map)[e].0 == before_map[e].0.0);
                            } else {
                                lemma_carried_len(old_subs.vars@, live@);
                                let carry = carried(old_subs.vars@, live@);
                                let fresh = carry.map_values(|c: (u64, u64)| c.0).map(|k: int, o: u64| ((before_ids + k) as u64, o));
                                let k = e - before_map.len();
                                assert(map_pairs(name_map@) == map_pairs(before_map) + fresh);
                                assert(map_pairs(before_map).len() == before_map.len());
                                assert(map_pairs(name_map@).len() == name_map@.len());
                                assert(fresh.len() == carry.len());
                                assert(0 <= k < fresh.len());
                                assert(map_pairs(name_map@)[e] == fresh[k]);
                                assert(ctx.idtracker.next_id >= before_ids + carry.len());
                                assert(fresh[k].0 == (before_ids + k) as u64);
                            }
                        }
                    }
                }
            }
        }
        proof {
            assert forall|k: int| old(statements)@.len() <= k < statements@.len()
                implies is_carry_statement(#[trigger] statements@[k]) by {
                if k < before_stmts.len() {
                    assert(statements@[k] == statements@.subrange(0, before_stmts.len() as int)[k]);
                }
            }
            assert(tracks(*block, p as int, trace[p as int], ctx.subs, ctx0.types, before_ids as int)) by {
                reveal(tracks);
                assert(later[p as int]@ == refs_after(*block, p as int));
            }
            assert(stage_of(stmts, p as int) == old_stage);
            lemma_carry_step(*block, trace, stage_enable_names@, before_stmts, statements@, old(statements)@.len() as int,
                SignalKey::Named(clock.0), p as int, n as int, old_stage as int,
                carried(old_subs.vars@, live@), before_ids as int);
        }
        proof {
            trace = trace.push(ctx.subs);
            firsts = firsts.push(before_ids as int);
        }
        p += 1;
    }
    proof {
        assert(body_stmts@.subrange(0, p as int) =~= body_stmts@);
        lemma_guards_match(local_conds@, guards);
    }

    let ghost pre_enable = statements@;
    synthesize_enables(&local_conds, &stage_enable_names, statements);
    proof {
        assert(statements@.subrange(0, old(statements)@.len() as int)
            =~= statements@.subrange(0, pre_enable.len() as int).subrange(0, old(statements)@.len() as int));
        assert forall|k: int| old(statements)@.len() <= k < statements@.len()
            implies clocked_by(#[trigger] statements@[k], SignalKey::Named(clock.0)) by {
            if k < pre_enable.len() {
                assert(statements@.subrange(0, pre_enable.len() as int)[k] == pre_enable[k]);
            }
        }
        if forall|j: int| 0 <= j < n ==> !#[trigger] guards[j] {
            assert forall|i: int| 0 <= i < n implies !needs_enable(local_conds@, i) by {
                if guarded_from(guards, i) {
                    let j = choose|j: int| i <= j < guards.len() && #[trigger] guards[j];
                }
            }
            lemma_no_enables(statements@, pre_enable.len() as int, local_conds@, stage_enable_names@);
            assert(statements@ =~= pre_enable);
        }
        if n == 0 {
            lemma_no_enables(statements@, pre_enable.len() as int, local_conds@, stage_enable_names@);
            assert(statements@ =~= pre_enable);
        }
    }

    if n as u64 > u64::MAX / 4 || ctx.idtracker.next_id > u64::MAX - 2 * (n as u64) {
        return Err(Error::Internal(InternalError::IdentifiersExhausted));
    }
    let ghost mid = statements@;
    let ghost valid_start = ctx.idtracker.next_id;
    let clock_name = value_name(clock);
    let valid_signals = synthesize_valids(&local_conds, &clock_name, &mut ctx.idtracker, statements);
    proof {
        assert forall|k: int| old(statements)@.len() <= k < statements@.len()
            implies clocked_by(#[trigger] statements@[k], SignalKey::Named(clock.0)) by {
            if k < mid.len() {
                assert(statements@.subrange(0, mid.len() as int)[k] == mid[k]);
            }
        }
        if forall|j: int| 0 <= j < n ==> !#[trigger] guards[j] {
            assert forall|j: int| 0 <= j < local_conds@.len() implies #[trigger] local_conds@[j] is None by {
                assert(!guards[j]);
            }
            assert(statements@ == mid);
            assert(mid == pre_enable);
            assert forall|k: int| old(statements)@.len() <= k < statements@.len()
                implies is_copy_register(#[trigger] statements@[k]) by {
                assert(statements@[k] == pre_enable[k]);
            }
        }
        assert(statements@.subrange(0, old(statements)@.len() as int)
            =~= statements@.subrange(0, mid.len() as int).subrange(0, old(statements)@.len() as int));
        assert forall|i: int| 0 <= i < n implies (#[trigger] valid_signals@[i + 1] is Some)
            == exists|j: int| 0 <= j <= i && #[trigger] guards[j] by {
            lemma_valid_pattern(local_conds@, valid_signals@, guards, i);
        }
    }

    let ghost slots = stage_enable_names@;
    let mut ready_signals = stage_enable_names;
    ready_signals.push(None);
    proof {
        assert(ready_signals@.subrange(0, n as int) =~= slots);
        assert forall|i: int| 0 <= i < n implies (#[trigger] ready_signals@[i] is Some) == guarded_from(guards, i) by {
            assert(ready_signals@[i] == slots[i]);
        }
        let fin = statements@;
        let start = old(statements)@.len() as int;
        assert forall|i: int| 0 <= i < n && needs_enable(local_conds@, i) implies
            enable_defined(fin, start, local_conds@, ready_signals@.subrange(0, n as int), i) by {
            lemma_enable_defined_widen(mid, fin, start, pre_enable.len() as int, local_conds@, slots, i);
        }
        assert forall|i: int| 0 <= i < n && (#[trigger] valid_signals@[i + 1]) is Some implies
            latches_validity(fin, start, SignalKey::Named(clock.0), opt_key(local_conds@[i]), opt_key(valid_signals@[i]),
                valid_signals@[i + 1]->Some_0.key()) by {
            lemma_latches_widen(fin, start, mid.len() as int, SignalKey::Named(clock.0), opt_key(local_conds@[i]),
                opt_key(valid_signals@[i]), valid_signals@[i + 1]->Some_0.key());
        }
    }
    ctx.pipeline_context = MaybePipelineContext::Pipeline(PipelineContext { ready_signals, valid_signals });
    proof {
        assert forall|k: int| old(statements)@.len() <= k < statements@.len()
            && is_copy_register(#[trigger] statements@[k]) implies exists|e: int|
                old(name_map)@.len() <= e < name_map@.len()
                && is_copy_of(statements@[k], map_pairs(name_map@)[e].0, map_pairs(name_map@)[e].1) by {
            if k >= mid.len() {
                assert(statements@[k]->Register_0.name is Expr);
            } else if k >= pre_enable.len() {
                assert(statements@[k] == statements@.subrange(0, mid.len() as int)[k]);
                assert(mid[k] is Binding);
            } else {
                assert(statements@[k] == statements@.subrange(0, mid.len() as int)[k]);
                assert(mid[k] == mid.subrange(0, pre_enable.len() as int)[k]);
                assert(statements@[k] == pre_enable[k]);
            }
        }
        assert(body_statements(body.inner)->Some_0 == body_stmts@);
        assert((forall|j: int| 0 <= j < stage_guards(body_statements(body.inner)->Some_0).len()
            ==> !#[trigger] stage_guards(body_statements(body.inner)->Some_0)[j])
            ==> (forall|j: int| 0 <= j < n ==> !#[trigger] guards[j]));
        let pc = ctx.pipeline_context->Pipeline_0;
        assert(wires_signals(statements@, old(statements)@.len() as int, SignalKey::Named(clock.0), pc, local_conds@));
        assert forall|i: int| 0 <= i < pc.valid_signals@.len() implies
            #[trigger] pc.valid_signals@[i] is None || fresh_between(pc.valid_signals@[i],
                old(ctx).idtracker.next_id as int, ctx.idtracker.next_id as int) by {
            if i > 0 && pc.valid_signals@[i] is Some {
                assert(pc.valid_signals@[(i - 1) + 1] is Some);
                assert(fresh_between(pc.valid_signals@[i], valid_start as int, ctx.idtracker.next_id as int));
            }
        }
        let fin = statements@;
        let ostart = old(statements)@.len() as int;
        let clock_key = SignalKey::Named(clock.0);
        let ready = pc.ready_signals@;
        assert(lowering_trace(trace, firsts, *block, hir_ids, ctx0.subs, ctx0.types, fin, ostart, clock_key, ready)
            && signal_blocks(fin, ostart, pre_enable.len() as int, mid.len() as int, local_conds@,
                ready.subrange(0, local_conds@.len() as int), clock_key)) by {
            assert(fin.subrange(0, pre_enable.len() as int) =~= pre_enable) by {
                assert(fin.subrange(0, mid.len() as int) == mid);
                assert(mid.subrange(0, pre_enable.len() as int) == pre_enable);
                assert forall|k: int| 0 <= k < pre_enable.len() implies fin[k] == pre_enable[k] by {
                    assert(fin.subrange(0, mid.len() as int)[k] == fin[k]);
                    assert(mid.subrange(0, pre_enable.len() as int)[k] == mid[k]);
                }
            }
            assert forall|q: int| 0 <= q < stmts.len() && (#[trigger] (*block).statements@[q]).inner is PipelineRegMarker
                implies carries_all(fin, ostart, clock_key, opt_key(ready[stage_of((*block).statements@, q)]),
                    carried(trace[q].vars@, refs_after(*block, q))) by {
                assert(stmts[q] == (*block).statements@[q]);
                lemma_carries_all_widen(pre_enable, fin, ostart, ostart, clock_key,
                    opt_key(slots[stage_of(stmts, q)]), carried(trace[q].vars@, refs_after(*block, q)));
                assert(ready[stage_of(stmts, q)] == ready.subrange(0, n as int)[stage_of(stmts, q)]);
            }
            assert(lowering_trace(trace, firsts, *block, hir_ids, ctx0.subs, ctx0.types, fin, ostart, clock_key, ready));
            assert(fin.subrange(0, mid.len() as int) == mid);
            assert forall|k: int| 0 <= k < mid.len() implies fin[k] == mid[k] by {
                assert(fin.subrange(0, mid.len() as int)[k] == fin[k]);
            }
            lemma_enable_block_grows(mid, fin, pre_enable.len() as int, local_conds@, slots);
            assert(ready.subrange(0, local_conds@.len() as int) =~= slots);
            assert forall|k: int| ostart <= k < pre_enable.len() implies is_carry_statement(#[trigger] fin[k]) by {
                assert(fin[k] == pre_enable[k]);
            }
            assert(valid_block(fin, mid.len() as int, clock_key));
            assert(signal_blocks(fin, ostart, pre_enable.len() as int, mid.len() as int, local_conds@,
                ready.subrange(0, local_conds@.len() as int), clock_key));
        }
    }
    Ok(())
}

proof fn lemma_valid_pattern(conds: Seq<Option<ValueName>>, valid: Seq<Option<ValueName>>, guards: Seq<bool>, i: int)
    requires
        conds.len() == guards.len(),
        valid.len() == conds.len() + 1,
        valid[0] is None,
        0 <= i < conds.len(),
        forall|j: int| 0 <= j < conds.len() ==> (#[trigger] conds[j] is Some) == guards[j],
        forall|j: int| 0 <= j < conds.len() ==>
            (#[trigger] valid[j + 1] is Some) == (conds[j] is Some || valid[j] is Some),
    ensures
        (valid[i + 1] is Some) == exists|j: int| 0 <= j <= i && #[trigger] guards[j],
    decreases i,
{
    if i > 0 {
        lemma_valid_pattern(conds, valid, guards, i - 1);
        if exists|j: int| 0 <= j <= i && #[trigger] guards[j] {
            let j = choose|j: int| 0 <= j <= i && #[trigger] guards[j];
            if j < i {
                assert(exists|j2: int| 0 <= j2 <= i - 1 && #[trigger] guards[j2]);
            }
        }
        if exists|j: int| 0 <= j <= i - 1 && #[trigger] guards[j] {
            let j = choose|j: int| 0 <= j <= i - 1 && #[trigger] guards[j];
            assert(0 <= j <= i && guards[j]);
        }
        assert(valid[i] is Some == (valid[(i - 1) + 1] is Some));
    } else {
        assert(valid[0int + 1] is Some == (conds[0int] is Some || valid[0int] is Some));
        if exists|j: int| 0 <= j <= i && #[trigger] guards[j] {
            let j = choose|j: int| 0 <= j <= i && #[trigger] guards[j];
            assert(j == 0);
        }
        if guards[0] {
            assert(exists|j: int| 0 <= j <= i && #[trigger] guards[j]);
        }
    }
    if guards[i] {
        assert(exists|j: int| 0 <= j <= i && #[trigger] guards[j]);
    }
}

} // verus!
