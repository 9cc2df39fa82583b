use vstd::prelude::*;

use crate::constraints::InnerTypeVar;
use crate::location::{Loc, Span};
use crate::name::{Identifier, NameID};

verus! {

/// A type variable as it appears in a report, detached from the engine's state.
#[derive(Clone, Copy, Debug, PartialEq, Eq, Structural)]
pub struct FreeTypeVar(pub u64);

impl InnerTypeVar {
    pub fn as_free(&self) -> (r: FreeTypeVar)
        ensures
            r.0 == self.0,
    {
        FreeTypeVar(self.0)
    }
}

/// A trace of a failed unification: the type that failed, and the outermost type it
/// failed inside, where that differs. Unifying `int<7>` with `int<8>` fails on `8`
/// inside `int<8>`; unifying `int<7>` with `bool` fails on `bool` alone.
#[derive(Clone, Copy, Debug, PartialEq, Eq, Structural)]
pub struct UnificationTrace {
    pub failing: FreeTypeVar,
    pub inside: Option<FreeTypeVar>,
}

impl UnificationTrace {
    pub fn new(failing: FreeTypeVar) -> (r: UnificationTrace)
        ensures
            r == (UnificationTrace { failing, inside: None }),
    {
        UnificationTrace { failing, inside: None }
    }

    /// The outermost type of the failure.
    pub fn outer(&self) -> (r: &FreeTypeVar)
        ensures
            *r == match self.inside {
                Some(t) => t,
                None => self.failing,
            },
    {
        match &self.inside {
            Some(t) => t,
            None => &self.failing,
        }
    }
}

/// The two sides of a failed unification.
pub type UnificationError = (UnificationTrace, UnificationTrace);

/// Adds, to a failed unification, the types that the failure happened inside.
pub trait UnificationErrorExt<T>: Sized {
    fn add_context(self, lhs: &InnerTypeVar, rhs: &InnerTypeVar) -> Result<T, UnificationError>;
}

impl<T> UnificationErrorExt<T> for Result<T, UnificationError> {
    fn add_context(self, lhs: &InnerTypeVar, rhs: &InnerTypeVar) -> (r: Result<T, UnificationError>)
        ensures
            match self {
                Ok(v) => r == Ok::<T, UnificationError>(v),
                Err((a, b)) => r == Err::<T, UnificationError>((
                    UnificationTrace { failing: a.failing, inside: Some(FreeTypeVar(lhs.0)) },
                    UnificationTrace { failing: b.failing, inside: Some(FreeTypeVar(rhs.0)) },
                )),
            },
    {
        match self {
            Ok(val) => Ok(val),
            Err((old_lhs, old_rhs)) => Err((with_context(old_lhs, lhs), with_context(old_rhs, rhs))),
        }
    }
}

/// The trace, failing inside `outer`.
pub fn with_context(trace: UnificationTrace, outer: &InnerTypeVar) -> (r: UnificationTrace)
    ensures
        r == (UnificationTrace { failing: trace.failing, inside: Some(FreeTypeVar(outer.0)) }),
{
    UnificationTrace { failing: trace.failing, inside: Some(outer.as_free()) }
}

/// An error of type inference.
#[derive(Debug)]
#[allow(inconsistent_fields)]
pub enum Error {
    /// The expression with this id has no type information.
    UnknownType(u64),
    TypeMismatch(UnificationTrace, UnificationTrace),
    EntityOutputTypeMismatch { expected: UnificationTrace, got: UnificationTrace, type_spec: Span, output_expr: Span },
    /// An output mismatch where the output type was left out and taken as unit.
    UnspecedEntityOutputTypeMismatch { expected: UnificationTrace, got: UnificationTrace, output_expr: Span },
    UnspecifiedTypeError { expected: UnificationTrace, got: UnificationTrace, loc: Span },
    IntLiteralIncompatible { got: UnificationTrace, loc: Span },
    NonBooleanCondition { got: UnificationTrace, loc: Span },
    IfConditionMismatch { expected: UnificationTrace, got: UnificationTrace, first_branch: Span, incorrect_branch: Span },
    MatchBranchMismatch { expected: UnificationTrace, got: UnificationTrace, first_branch: Span, incorrect_branch: Span },
    NonClockClock { expected: UnificationTrace, got: UnificationTrace, loc: Span },
    NonBoolReset { expected: UnificationTrace, got: UnificationTrace, loc: Span },
    RegisterResetMismatch { expected: UnificationTrace, got: UnificationTrace, loc: Span },
    NamedArgumentMismatch { name: Loc<Identifier>, expr: Span, expected: UnificationTrace, got: UnificationTrace },
    ShortNamedArgumentMismatch { name: Loc<Identifier>, expected: UnificationTrace, got: UnificationTrace },
    PositionalArgumentMismatch { index: usize, expr: Span, expected: UnificationTrace, got: UnificationTrace },
    TupleIndexOfGeneric { loc: Span },
    TupleIndexOfNonTuple { got: InnerTypeVar, loc: Span },
    TupleIndexOutOfBounds { index: Loc<u128>, actual_size: u128 },
    FieldAccessOnIncomplete { loc: Span },
    FieldAccessOnGeneric { loc: Span, name: NameID },
    FieldAccessOnNonStruct { loc: Span, got: InnerTypeVar },
    FieldAccessOnInteger { loc: Span },
    FieldAccessOnEnum { loc: Span, actual_type: NameID },
    FieldAccessOnPrimitive { loc: Span, actual_type: NameID },
    NoSuchField { field: Loc<Identifier>, _struct: NameID },
    ArrayElementMismatch { expected: UnificationTrace, got: UnificationTrace, loc: Span, first_element: Span },
    IndexMustBeInteger { got: UnificationTrace, loc: Span },
    IndexeeMustBeArray { got: UnificationTrace, loc: Span },
    PatternTypeMismatch { pattern: Span, expected: UnificationTrace, got: UnificationTrace },
    FirstPipelineArgNotClock { expected: UnificationTrace, spec: Loc<UnificationTrace> },
    GenericTypeInstanciation,
}

} // verus!
