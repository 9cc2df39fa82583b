use vstd::prelude::*;

verus! {

/// One segment of a path.
#[derive(Clone, Debug, PartialEq, Eq)]
pub struct Identifier(pub String);

/// A sequence of identifiers separated by `::` in the source.
#[derive(Clone, Debug, PartialEq, Eq)]
pub struct Path(pub Vec<Identifier>);

/// The identity of a resolved name. Two `NameID`s denote the same name exactly
/// when their numbers agree; the path is kept for display only.
#[derive(Debug)]
pub struct NameID(pub u64, pub Path);

impl Clone for NameID {
    fn clone(&self) -> (r: NameID)
        ensures
            r.0 == self.0,
    {
        NameID(self.0, self.1.clone())
    }
}

impl NameID {
    /// Whether two name identities denote the same name.
    pub fn same_as(&self, other: &NameID) -> (r: bool)
        ensures
            r == (self.0 == other.0),
    {
        self.0 == other.0
    }
}

} // verus!
