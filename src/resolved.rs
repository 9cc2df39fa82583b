use vstd::prelude::*;

use crate::location::{Loc, Span};

verus! {

/// A name after resolution: written in the source, or made up by the compiler.
#[derive(Debug, PartialEq, Clone)]
pub enum Identifier {
    Named(String),
    Anonymous(u64),
}

/// A resolved path.
#[derive(Debug)]
pub struct Path(pub Vec<Loc<Identifier>>);

impl Path {
    /// The path whose segments are the given names, each at no place in the source.
    pub fn from_strs(names: &[&str]) -> (r: Path)
        ensures
            r.0@.len() == names@.len(),
            forall|i: int| 0 <= i < names@.len() ==> {
                &&& (#[trigger] r.0@[i]).inner is Named
                &&& r.0@[i].inner->Named_0@ == names@[i]@
                &&& r.0@[i].span == Span::nowhere_spec()
            },
    {
        let mut segments: Vec<Loc<Identifier>> = Vec::new();
        let mut i: usize = 0;
        while i < names.len()
            invariant
                0 <= i <= names@.len(),
                segments@.len() == i,
                forall|j: int| 0 <= j < i ==> {
                    &&& (#[trigger] segments@[j]).inner is Named
                    &&& segments@[j].inner->Named_0@ == names@[j]@
                    &&& segments@[j].span == Span::nowhere_spec()
                },
            decreases names@.len() - i,
        {
            segments.push(Loc::nowhere(Identifier::Named(names[i].to_owned())));
            i += 1;
        }
        Path(segments)
    }
}

} // verus!
