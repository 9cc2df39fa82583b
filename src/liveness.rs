use vstd::prelude::*;

use crate::hir::{ArgumentList, Block, ExprKind, Expression, NamedArgument, Pattern, Statement};
use crate::location::Loc;

verus! {

/// The variables that an expression refers to, in the order in which they occur,
/// counting a reference into another stage as a reference to its variable.
pub open spec fn expr_refs(kind: ExprKind) -> Seq<u64>
    decreases kind, 0int,
{
    match kind {
        ExprKind::Identifier(n) => seq![n.0],
        ExprKind::PipelineRef { name, .. } => seq![name.inner.0],
        ExprKind::TupleLiteral(elems) => list_refs(elems@, elems@.len() as int),
        ExprKind::ArrayLiteral(elems) => list_refs(elems@, elems@.len() as int),
        ExprKind::Index(lhs, idx) => expr_refs(lhs.inner.kind) + expr_refs(idx.inner.kind),
        ExprKind::TupleIndex(lhs, _) => expr_refs(lhs.inner.kind),
        ExprKind::FieldAccess(lhs, _) => expr_refs(lhs.inner.kind),
        ExprKind::MethodCall { target, args, .. } => expr_refs(target.inner.kind) + args_refs(args.inner),
        ExprKind::Call { args, .. } => args_refs(args.inner),
        ExprKind::BinaryOperator(lhs, _, rhs) => expr_refs(lhs.inner.kind) + expr_refs(rhs.inner.kind),
        ExprKind::UnaryOperator(_, val) => expr_refs(val.inner.kind),
        ExprKind::Match(cond, arms) => expr_refs(cond.inner.kind) + arm_refs(arms@, arms@.len() as int),
        ExprKind::Block(block) => block_refs(*block),
        ExprKind::If(cond, on_true, on_false) => expr_refs(cond.inner.kind) + expr_refs(on_true.inner.kind)
            + expr_refs(on_false.inner.kind),
        _ => Seq::empty(),
    }
}

/// The references of the first `n` expressions of a list.
pub open spec fn list_refs(es: Seq<Loc<Expression>>, n: int) -> Seq<u64>
    decreases es, n,
{
    if n <= 0 || n > es.len() {
        Seq::empty()
    } else {
        list_refs(es, n - 1) + expr_refs(es[n - 1].inner.kind)
    }
}

/// The references of the values of the first `n` arms of a `match`.
pub open spec fn arm_refs(arms: Seq<(Loc<Pattern>, Loc<Expression>)>, n: int) -> Seq<u64>
    decreases arms, n,
{
    if n <= 0 || n > arms.len() {
        Seq::empty()
    } else {
        arm_refs(arms, n - 1) + expr_refs(arms[n - 1].1.inner.kind)
    }
}

/// The references of the first `n` named arguments.
pub open spec fn named_refs(args: Seq<NamedArgument>, n: int) -> Seq<u64>
    decreases args, n,
{
    if n <= 0 || n > args.len() {
        Seq::empty()
    } else {
        named_refs(args, n - 1) + match args[n - 1] {
            NamedArgument::Full(_, e) => expr_refs(e.inner.kind),
            NamedArgument::Short(_, e) => expr_refs(e.inner.kind),
        }
    }
}

pub open spec fn args_refs(args: ArgumentList) -> Seq<u64>
    decreases args, 1int,
{
    match args {
        ArgumentList::Named(n) => named_refs(n@, n@.len() as int),
        ArgumentList::Positional(p) => list_refs(p@, p@.len() as int),
    }
}

/// The references of a block: of its statements, then of its result.
pub open spec fn block_refs(block: Block) -> Seq<u64>
    decreases block, 1int,
{
    statement_list_refs(block.statements@, block.statements@.len() as int) + match block.result {
        Some(r) => expr_refs(r.inner.kind),
        None => Seq::empty(),
    }
}

/// The references of the first `n` statements of a list.
pub open spec fn statement_list_refs(stmts: Seq<Loc<Statement>>, n: int) -> Seq<u64>
    decreases stmts, n,
{
    if n <= 0 || n > stmts.len() {
        Seq::empty()
    } else {
        statement_list_refs(stmts, n - 1) + statement_refs(stmts[n - 1].inner)
    }
}

/// The variables that a statement refers to.
pub open spec fn statement_refs(s: Statement) -> Seq<u64>
    decreases s, 0int,
{
    match s {
        Statement::Binding(b) => expr_refs(b.value.inner.kind),
        Statement::Register(reg) => expr_refs(reg.inner.clock.inner.kind) + match reg.inner.reset {
            Some((trigger, value)) => expr_refs(trigger.inner.kind) + expr_refs(value.inner.kind),
            None => Seq::empty(),
        } + expr_refs(reg.inner.value.inner.kind),
        Statement::PipelineRegMarker(cond) => match cond {
            Some(c) => expr_refs(c.inner.kind),
            None => Seq::empty(),
        },
        Statement::Assert(e) => expr_refs(e.inner.kind),
        Statement::Assign { target, value } => expr_refs(target.inner.kind) + expr_refs(value.inner.kind),
        _ => Seq::empty(),
    }
}

/// Appends the references of an expression to `out`.
pub fn collect_expr_refs(kind: &ExprKind, out: &mut Vec<u64>)
    ensures
        final(out)@ == old(out)@ + expr_refs(*kind),
    decreases *kind, 0int,
{
    let ghost start = out@;
    match kind {
        ExprKind::Identifier(n) => {
            out.push(n.0);
        },
        ExprKind::PipelineRef { name, .. } => {
            out.push(name.inner.0);
        },
        ExprKind::TupleLiteral(elems) => collect_list_refs(elems, out),
        ExprKind::ArrayLiteral(elems) => collect_list_refs(elems, out),
        ExprKind::Index(lhs, idx) => {
            collect_expr_refs(&lhs.inner.kind, out);
            collect_expr_refs(&idx.inner.kind, out);
        },
        ExprKind::TupleIndex(lhs, _) => collect_expr_refs(&lhs.inner.kind, out),
        ExprKind::FieldAccess(lhs, _) => collect_expr_refs(&lhs.inner.kind, out),
        ExprKind::MethodCall { target, args, .. } => {
            collect_expr_refs(&target.inner.kind, out);
            collect_args_refs(&args.inner, out);
        },
        ExprKind::Call { args, .. } => collect_args_refs(&args.inner, out),
        ExprKind::BinaryOperator(lhs, _, rhs) => {
            collect_expr_refs(&lhs.inner.kind, out);
            collect_expr_refs(&rhs.inner.kind, out);
        },
        ExprKind::UnaryOperator(_, val) => collect_expr_refs(&val.inner.kind, out),
        ExprKind::Match(cond, arms) => {
            collect_expr_refs(&cond.inner.kind, out);
            collect_arm_refs(arms, out);
        },
        ExprKind::Block(block) => collect_block_refs(block, out),
        ExprKind::If(cond, on_true, on_false) => {
            collect_expr_refs(&cond.inner.kind, out);
            collect_expr_refs(&on_true.inner.kind, out);
            collect_expr_refs(&on_false.inner.kind, out);
        },
        _ => {},
    }
    assert(out@ =~= start + expr_refs(*kind));
}

fn collect_list_refs(es: &Vec<Loc<Expression>>, out: &mut Vec<u64>)
    ensures
        final(out)@ == old(out)@ + list_refs(es@, es@.len() as int),
    decreases es@, es@.len() + 1int,
{
    let mut i: usize = 0;
    assert(old(out)@ + list_refs(es@, 0) =~= old(out)@);
    while i < es.len()
        invariant
            0 <= i <= es@.len(),
            out@ == old(out)@ + list_refs(es@, i as int),
        decreases es@.len() - i,
    {
        proof { assert(decreases_to!(es@ => es@[i as int].inner.kind)); }
        collect_expr_refs(&es[i].inner.kind, out);
        assert(out@ =~= old(out)@ + list_refs(es@, i + 1));
        i += 1;
    }
}

fn collect_arm_refs(arms: &Vec<(Loc<Pattern>, Loc<Expression>)>, out: &mut Vec<u64>)
    ensures
        final(out)@ == old(out)@ + arm_refs(arms@, arms@.len() as int),
    decreases arms@, arms@.len() + 1int,
{
    let mut i: usize = 0;
    assert(old(out)@ + arm_refs(arms@, 0) =~= old(out)@);
    while i < arms.len()
        invariant
            0 <= i <= arms@.len(),
            out@ == old(out)@ + arm_refs(arms@, i as int),
        decreases arms@.len() - i,
    {
        proof { assert(decreases_to!(arms@ => arms@[i as int].1.inner.kind)); }
        collect_expr_refs(&arms[i].1.inner.kind, out);
        assert(out@ =~= old(out)@ + arm_refs(arms@, i + 1));
        i += 1;
    }
}

fn collect_named_refs(args: &Vec<NamedArgument>, out: &mut Vec<u64>)
    ensures
        final(out)@ == old(out)@ + named_refs(args@, args@.len() as int),
    decreases args@, args@.len() + 1int,
{
    let mut i: usize = 0;
    assert(old(out)@ + named_refs(args@, 0) =~= old(out)@);
    while i < args.len()
        invariant
            0 <= i <= args@.len(),
            out@ == old(out)@ + named_refs(args@, i as int),
        decreases args@.len() - i,
    {
        match &args[i] {
            NamedArgument::Full(_, e) => {
                proof { assert(decreases_to!(args@ => args@[i as int]->Full_1.inner.kind)); }
                collect_expr_refs(&e.inner.kind, out);
            },
            NamedArgument::Short(_, e) => {
                proof { assert(decreases_to!(args@ => args@[i as int]->Short_1.inner.kind)); }
                collect_expr_refs(&e.inner.kind, out);
            },
        }
        assert(out@ =~= old(out)@ + named_refs(args@, i + 1));
        i += 1;
    }
}

fn collect_args_refs(args: &ArgumentList, out: &mut Vec<u64>)
    ensures
        final(out)@ == old(out)@ + args_refs(*args),
    decreases *args, 1int,
{
    match args {
        ArgumentList::Named(n) => collect_named_refs(n, out),
        ArgumentList::Positional(p) => collect_list_refs(p, out),
    }
}

fn collect_block_refs(block: &Block, out: &mut Vec<u64>)
    ensures
        final(out)@ == old(out)@ + block_refs(*block),
    decreases *block, 1int,
{
    let ghost start = out@;
    collect_statement_list_refs(&block.statements, out);
    match &block.result {
        Some(r) => collect_expr_refs(&r.inner.kind, out),
        None => {},
    }
    assert(out@ =~= start + block_refs(*block));
}

fn collect_statement_list_refs(stmts: &Vec<Loc<Statement>>, out: &mut Vec<u64>)
    ensures
        final(out)@ == old(out)@ + statement_list_refs(stmts@, stmts@.len() as int),
    decreases stmts@, stmts@.len() + 1int,
{
    let mut i: usize = 0;
    assert(old(out)@ + statement_list_refs(stmts@, 0) =~= old(out)@);
    while i < stmts.len()
        invariant
            0 <= i <= stmts@.len(),
            out@ == old(out)@ + statement_list_refs(stmts@, i as int),
        decreases stmts@.len() - i,
    {
        proof { assert(decreases_to!(stmts@ => stmts@[i as int].inner)); }
        collect_statement_refs(&stmts[i].inner, out);
        assert(out@ =~= old(out)@ + statement_list_refs(stmts@, i + 1));
        i += 1;
    }
}

/// Appends the references of a statement to `out`.
pub fn collect_statement_refs(s: &Statement, out: &mut Vec<u64>)
    ensures
        final(out)@ == old(out)@ + statement_refs(*s),
    decreases *s, 0int,
{
    let ghost start = out@;
    match s {
        Statement::Binding(b) => collect_expr_refs(&b.value.inner.kind, out),
        Statement::Register(reg) => {
            collect_expr_refs(&reg.inner.clock.inner.kind, out);
            match &reg.inner.reset {
                Some((trigger, value)) => {
                    collect_expr_refs(&trigger.inner.kind, out);
                    collect_expr_refs(&value.inner.kind, out);
                },
                None => {},
            }
            collect_expr_refs(&reg.inner.value.inner.kind, out);
        },
        Statement::PipelineRegMarker(cond) => match cond {
            Some(c) => collect_expr_refs(&c.inner.kind, out),
            None => {},
        },
        Statement::Assert(e) => collect_expr_refs(&e.inner.kind, out),
        Statement::Assign { target, value } => {
            collect_expr_refs(&target.inner.kind, out);
            collect_expr_refs(&value.inner.kind, out);
        },
        _ => {},
    }
    assert(out@ =~= start + statement_refs(*s));
}

} // verus!
