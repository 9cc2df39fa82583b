use vstd::prelude::*;

verus! {

/// A region of a source file: the file's index and a half-open byte range.
#[derive(Clone, Copy, Debug, PartialEq, Eq, Structural)]
pub struct Span {
    pub file_id: usize,
    pub start: usize,
    pub end: usize,
}

impl Span {
    pub open spec fn nowhere_spec() -> Span {
        Span { file_id: 0, start: 0, end: 0 }
    }

    /// A span that points nowhere, for synthesized items.
    pub fn nowhere() -> (r: Span)
        ensures
            r == (Span { file_id: 0, start: 0, end: 0 }),
    {
        Span { file_id: 0, start: 0, end: 0 }
    }
}

/// A value together with the place in the source that it came from.
#[derive(Clone, Debug)]
pub struct Loc<T> {
    pub inner: T,
    pub span: Span,
}

impl<T> Loc<T> {
    pub fn new(inner: T, span: Span) -> (r: Loc<T>)
        ensures
            r.inner == inner,
            r.span == span,
    {
        Loc { inner, span }
    }

    pub fn nowhere(inner: T) -> (r: Loc<T>)
        ensures
            r.inner == inner,
            r.span == (Span { file_id: 0, start: 0, end: 0 }),
    {
        Loc { inner, span: Span::nowhere() }
    }
}

} // verus!
