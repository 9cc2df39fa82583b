use vstd::prelude::*;

use crate::error::{Error, InternalError};
use crate::hir::{CallKind, ExprKind, Expression, Pattern};
use crate::location::{Loc, Span};

verus! {

/// The stage offset at which the value of an expression exists, relative to the stage
/// in which it is evaluated, or why it has none.
pub open spec fn availability(kind: ExprKind) -> Result<u128, Error>
    decreases kind, 0int,
{
    match kind {
        ExprKind::Identifier(_) => Ok(0),
        ExprKind::IntLiteral(_) => Ok(0),
        ExprKind::BoolLiteral(_) => Ok(0),
        ExprKind::BitLiteral(_) => Ok(0),
        ExprKind::CreatePorts => Ok(0),
        ExprKind::StageReady => Ok(0),
        ExprKind::StageValid => Ok(0),
        ExprKind::PipelineRef { .. } => Ok(0),
        ExprKind::TupleLiteral(elems) => common_availability(elems@),
        ExprKind::ArrayLiteral(elems) => common_availability(elems@),
        ExprKind::Index(lhs, idx) => pair_availability(
            availability(lhs.inner.kind), lhs.span, availability(idx.inner.kind), idx.span),
        ExprKind::TupleIndex(lhs, _) => availability(lhs.inner.kind),
        ExprKind::FieldAccess(lhs, _) => availability(lhs.inner.kind),
        ExprKind::BinaryOperator(lhs, _, rhs) => pair_availability(
            availability(lhs.inner.kind), lhs.span, availability(rhs.inner.kind), rhs.span),
        ExprKind::UnaryOperator(_, val) => availability(val.inner.kind),
        ExprKind::Match(_, arms) => common_arm_availability(arms@),
        ExprKind::Block(block) => match block.result {
            Some(result) => availability(result.inner.kind),
            None => Ok(0),
        },
        ExprKind::Call { kind: CallKind::Pipeline(_, depth), .. } => Ok(depth.inner),
        ExprKind::Call { .. } => Ok(0),
        ExprKind::If(cond, on_true, on_false) => pair_availability(
            pair_availability(
                availability(on_true.inner.kind), on_true.span,
                availability(on_false.inner.kind), on_false.span,
            ),
            on_true.span,
            availability(cond.inner.kind),
            cond.span,
        ),
        ExprKind::MethodCall { name, .. } => Err(
            Error::Internal(InternalError::MethodCallNotLowered(name.span)),
        ),
        ExprKind::Null => Err(Error::Internal(InternalError::NullExpression)),
    }
}

/// The offset shared by two expressions, given the outcome for each and where each
/// stands, or a mismatch that names both.
pub open spec fn pair_availability(
    a: Result<u128, Error>,
    a_span: Span,
    b: Result<u128, Error>,
    b_span: Span,
) -> Result<u128, Error> {
    match a {
        Err(e) => Err(e),
        Ok(x) => match b {
            Err(e) => Err(e),
            Ok(y) => if x == y {
                Ok(x)
            } else {
                Err(Error::AvailabilityMismatch {
                    prev: Loc { inner: x, span: a_span },
                    new: Loc { inner: y, span: b_span },
                })
            },
        },
    }
}

/// The offset shared by all expressions of a list, 0 for an empty list. The first
/// error met in order is the result; a disagreement is reported against the first
/// expression.
pub open spec fn common_availability(es: Seq<Loc<Expression>>) -> Result<u128, Error>
    decreases es, es.len() + 1int,
{
    if es.len() == 0 {
        Ok(0)
    } else {
        match availability(es[0].inner.kind) {
            Err(e) => Err(e),
            Ok(first) => agreeing_from(es, 1, first),
        }
    }
}

/// The offset `first` of `es[0]`, checked against the expressions from `i` on.
pub open spec fn agreeing_from(es: Seq<Loc<Expression>>, i: int, first: u128) -> Result<u128, Error>
    recommends
        0 < es.len(),
    decreases es, es.len() - i,
{
    if i >= es.len() || i < 1 {
        Ok(first)
    } else {
        match availability(es[i].inner.kind) {
            Err(e) => Err(e),
            Ok(a) => if a == first {
                agreeing_from(es, i + 1, first)
            } else {
                Err(Error::AvailabilityMismatch {
                    prev: Loc { inner: first, span: es[0].span },
                    new: Loc { inner: a, span: es[i].span },
                })
            },
        }
    }
}

/// The offset shared by the values of all arms of a `match`.
pub open spec fn common_arm_availability(arms: Seq<(Loc<Pattern>, Loc<Expression>)>) -> Result<u128, Error>
    decreases arms, arms.len() + 1int,
{
    if arms.len() == 0 {
        Ok(0)
    } else {
        match availability(arms[0].1.inner.kind) {
            Err(e) => Err(e),
            Ok(first) => arms_agreeing_from(arms, 1, first),
        }
    }
}

pub open spec fn arms_agreeing_from(arms: Seq<(Loc<Pattern>, Loc<Expression>)>, i: int, first: u128) -> Result<u128, Error>
    decreases arms, arms.len() - i,
{
    if i >= arms.len() || i < 1 {
        Ok(first)
    } else {
        match availability(arms[i].1.inner.kind) {
            Err(e) => Err(e),
            Ok(a) => if a == first {
                arms_agreeing_from(arms, i + 1, first)
            } else {
                Err(Error::AvailabilityMismatch {
                    prev: Loc { inner: first, span: arms[0].1.span },
                    new: Loc { inner: a, span: arms[i].1.span },
                })
            },
        }
    }
}

/// The offset of two expressions that must agree, given the outcome for each.
fn combine_pair(x: Result<u128, Error>, a_span: Span, y: Result<u128, Error>, b_span: Span) -> (r: Result<u128, Error>)
    ensures
        r == pair_availability(x, a_span, y, b_span),
{
    let x = x?;
    let y = y?;
    if x == y {
        Ok(x)
    } else {
        Err(Error::AvailabilityMismatch {
            prev: Loc { inner: x, span: a_span },
            new: Loc { inner: y, span: b_span },
        })
    }
}

/// Computes the offset at which all of the given expressions are available, or the
/// first mismatch between them.
pub fn try_compute_availability(exprs: &Vec<Loc<Expression>>) -> (r: Result<u128, Error>)
    ensures
        r == common_availability(exprs@),
    decreases exprs@, exprs@.len() + 1int,
{
    if exprs.len() == 0 {
        return Ok(0);
    }
    proof { assert(decreases_to!(exprs@ => exprs@[0].inner.kind)); }
    let first = exprs[0].inner.kind.available_in()?;
    let mut i: usize = 1;
    while i < exprs.len()
        invariant
            1 <= i <= exprs@.len(),
            availability(exprs@[0].inner.kind) == Ok::<u128, Error>(first),
            common_availability(exprs@) == agreeing_from(exprs@, i as int, first),
        decreases exprs@.len() - i,
    {
        proof { assert(decreases_to!(exprs@ => exprs@[i as int].inner.kind)); }
        let a = exprs[i].inner.kind.available_in()?;
        if a != first {
            return Err(Error::AvailabilityMismatch {
                prev: Loc { inner: first, span: exprs[0].span },
                new: Loc { inner: a, span: exprs[i].span },
            });
        }
        i += 1;
    }
    Ok(first)
}

/// The offset at which the values of all arms of a `match` are available.
fn try_arm_availability(arms: &Vec<(Loc<Pattern>, Loc<Expression>)>) -> (r: Result<u128, Error>)
    ensures
        r == common_arm_availability(arms@),
    decreases arms@, arms@.len() + 1int,
{
    if arms.len() == 0 {
        return Ok(0);
    }
    proof { assert(decreases_to!(arms@ => arms@[0].1.inner.kind)); }
    let first = arms[0].1.inner.kind.available_in()?;
    let mut i: usize = 1;
    while i < arms.len()
        invariant
            1 <= i <= arms@.len(),
            common_arm_availability(arms@) == arms_agreeing_from(arms@, i as int, first),
        decreases arms@.len() - i,
    {
        proof { assert(decreases_to!(arms@ => arms@[i as int].1.inner.kind)); }
        let a = arms[i].1.inner.kind.available_in()?;
        if a != first {
            return Err(Error::AvailabilityMismatch {
                prev: Loc { inner: first, span: arms[0].1.span },
                new: Loc { inner: a, span: arms[i].1.span },
            });
        }
        i += 1;
    }
    Ok(first)
}

impl ExprKind {
    /// The stage offset at which the value of this expression exists, relative to the
    /// stage in which it is evaluated.
    pub fn available_in(&self) -> (r: Result<u128, Error>)
        ensures
            r == availability(*self),
        decreases *self, 0int,
    {
        match self {
            ExprKind::Identifier(_) => Ok(0),
            ExprKind::IntLiteral(_) => Ok(0),
            ExprKind::BoolLiteral(_) => Ok(0),
            ExprKind::BitLiteral(_) => Ok(0),
            ExprKind::CreatePorts => Ok(0),
            ExprKind::StageReady => Ok(0),
            ExprKind::StageValid => Ok(0),
            ExprKind::PipelineRef { .. } => Ok(0),
            ExprKind::TupleLiteral(elems) => try_compute_availability(elems),
            ExprKind::ArrayLiteral(elems) => try_compute_availability(elems),
            ExprKind::Index(lhs, idx) => combine_pair(
                lhs.inner.kind.available_in(), lhs.span, idx.inner.kind.available_in(), idx.span),
            ExprKind::TupleIndex(lhs, _) => lhs.inner.kind.available_in(),
            ExprKind::FieldAccess(lhs, _) => lhs.inner.kind.available_in(),
            ExprKind::BinaryOperator(lhs, _, rhs) => combine_pair(
                lhs.inner.kind.available_in(), lhs.span, rhs.inner.kind.available_in(), rhs.span),
            ExprKind::UnaryOperator(_, val) => val.inner.kind.available_in(),
            ExprKind::Match(_, arms) => try_arm_availability(arms),
            ExprKind::Block(block) => match &block.result {
                Some(result) => result.inner.kind.available_in(),
                None => Ok(0),
            },
            ExprKind::Call { kind: CallKind::Pipeline(_, depth), .. } => Ok(depth.inner),
            ExprKind::Call { .. } => Ok(0),
            ExprKind::If(cond, on_true, on_false) => combine_pair(
                combine_pair(
                    on_true.inner.kind.available_in(),
                    on_true.span,
                    on_false.inner.kind.available_in(),
                    on_false.span,
                ),
                on_true.span,
                cond.inner.kind.available_in(),
                cond.span,
            ),
            ExprKind::MethodCall { name, .. } => Err(
                Error::Internal(InternalError::MethodCallNotLowered(name.span)),
            ),
            ExprKind::Null => Err(Error::Internal(InternalError::NullExpression)),
        }
    }
}

/// A conditional whose branches become available in different stages has no
/// availability: lowering reports a mismatch that names the offset and the place of
/// each branch. Branches that agree are then checked against the condition.
pub proof fn lemma_branch_mismatch_detected(kind: ExprKind)
    requires
        kind is If,
        availability(kind->If_1.inner.kind) is Ok,
        availability(kind->If_2.inner.kind) is Ok,
        availability(kind->If_1.inner.kind)->Ok_0 != availability(kind->If_2.inner.kind)->Ok_0,
    ensures
        availability(kind) == Err::<u128, Error>(Error::AvailabilityMismatch {
            prev: Loc { inner: availability(kind->If_1.inner.kind)->Ok_0, span: kind->If_1.span },
            new: Loc { inner: availability(kind->If_2.inner.kind)->Ok_0, span: kind->If_2.span },
        }),
{
}

/// A conditional whose branches agree but whose condition becomes available in another
/// stage has no availability either: the mismatch names the branches' offset and the
/// condition's.
pub proof fn lemma_condition_mismatch_detected(kind: ExprKind)
    requires
        kind is If,
        availability(kind->If_0.inner.kind) is Ok,
        availability(kind->If_1.inner.kind) is Ok,
        availability(kind->If_1.inner.kind) == availability(kind->If_2.inner.kind),
        availability(kind->If_0.inner.kind)->Ok_0 != availability(kind->If_1.inner.kind)->Ok_0,
    ensures
        availability(kind) == Err::<u128, Error>(Error::AvailabilityMismatch {
            prev: Loc { inner: availability(kind->If_1.inner.kind)->Ok_0, span: kind->If_1.span },
            new: Loc { inner: availability(kind->If_0.inner.kind)->Ok_0, span: kind->If_0.span },
        }),
{
}

} // verus!
