use vstd::prelude::*;

use crate::location::{Loc, Span};

verus! {

/// A violated invariant of the compiler itself: such an error points at a bug in an
/// earlier pass, never at a mistake in the program being compiled.
#[derive(Debug)]
pub enum InternalError {
    /// A method call reached the availability analysis before it was lowered.
    MethodCallNotLowered(Span),
    /// A placeholder expression reached the pipeline lowering.
    NullExpression,
    /// A declaration statement in a pipeline body, which pipelines do not support.
    DeclarationInPipeline(Span),
    /// A pipeline whose body is not a block.
    BodyNotBlock,
    /// A pipeline without inputs, so without a clock.
    MissingClock,
    /// A variable whose type is not known.
    UnknownType(u64),
    /// A name that was carried across a stage boundary twice.
    DuplicateCarry(u64),
    /// The identifier space is used up.
    IdentifiersExhausted,
}

/// An error that lowering reports.
#[derive(Debug)]
pub enum Error {
    /// Two parts of one expression become available in different stages: the first
    /// part's offset and place, and those of the first part that disagrees with it.
    AvailabilityMismatch { prev: Loc<u128>, new: Loc<u128> },
    /// A construct that only means something inside a pipeline was used outside one.
    MissingPipelineContext(Span),
    /// A variable used as a stage guard before the stage in which its value exists:
    /// the variable, how many more stages it needs, and where it was used.
    UseBeforeReady { name: u64, stages_left: u128, at: Span },
    Internal(InternalError),
}

} // verus!
