use vstd::prelude::*;

use crate::location::Loc;

verus! {

/// A type variable of the unification engine.
#[derive(Clone, Copy, Debug, PartialEq, Eq, Structural)]
pub struct InnerTypeVar(pub u64);

/// An integer expression over type variables that a type variable must equal.
#[derive(Debug)]
pub enum ConstraintExpr {
    Integer(i128),
    Var(InnerTypeVar),
    Sum(Box<ConstraintExpr>, Box<ConstraintExpr>),
    Sub(Box<ConstraintExpr>),
}

impl Clone for ConstraintExpr {
    fn clone(&self) -> (r: ConstraintExpr)
        ensures
            r == *self,
        decreases self,
    {
        match self {
            ConstraintExpr::Integer(v) => ConstraintExpr::Integer(*v),
            ConstraintExpr::Var(v) => ConstraintExpr::Var(*v),
            ConstraintExpr::Sum(l, r) => ConstraintExpr::Sum(Box::new((**l).clone()), Box::new((**r).clone())),
            ConstraintExpr::Sub(inner) => ConstraintExpr::Sub(Box::new((**inner).clone())),
        }
    }
}

impl ConstraintExpr {
    /// One step of simplification: a sum of two integers becomes their sum and the
    /// negation of an integer its negation, where the result fits 128 bits; anything
    /// else stays as it is.
    pub open spec fn evaluated(&self) -> ConstraintExpr {
        match self {
            ConstraintExpr::Sum(l, r) => match (**l, **r) {
                (ConstraintExpr::Integer(a), ConstraintExpr::Integer(b)) =>
                    if i128::MIN <= a + b <= i128::MAX {
                        ConstraintExpr::Integer((a + b) as i128)
                    } else {
                        *self
                    },
                _ => *self,
            },
            ConstraintExpr::Sub(inner) => match **inner {
                ConstraintExpr::Integer(v) => if v != i128::MIN {
                    ConstraintExpr::Integer((-v) as i128)
                } else {
                    *self
                },
                _ => *self,
            },
            _ => *self,
        }
    }

    /// Evaluates the expression one step, returning its simplified form.
    pub fn evaluate(&self) -> (r: ConstraintExpr)
        ensures
            r == self.evaluated(),
    {
        match self {
            ConstraintExpr::Integer(_) => self.clone(),
            ConstraintExpr::Var(_) => self.clone(),
            ConstraintExpr::Sum(lhs, rhs) => match (&**lhs, &**rhs) {
                (ConstraintExpr::Integer(l), ConstraintExpr::Integer(r)) => match l.checked_add(*r) {
                    Some(v) => ConstraintExpr::Integer(v),
                    None => self.clone(),
                },
                _ => self.clone(),
            },
            ConstraintExpr::Sub(inner) => match &**inner {
                ConstraintExpr::Integer(val) => if *val != i128::MIN {
                    ConstraintExpr::Integer(-*val)
                } else {
                    self.clone()
                },
                _ => self.clone(),
            },
        }
    }
}

/// Constraints on type variables, each with where it arose.
#[derive(Debug)]
pub struct TypeConstraints {
    pub inner: Vec<(InnerTypeVar, Loc<ConstraintExpr>)>,
}

/// The values that evaluating a list of constraints settles: each constraint whose
/// expression evaluates to an integer, with that integer and the constraint's place.
pub open spec fn settled(cs: Seq<(InnerTypeVar, Loc<ConstraintExpr>)>) -> Seq<Loc<(InnerTypeVar, i128)>>
    decreases cs.len(),
{
    if cs.len() == 0 {
        Seq::empty()
    } else {
        let rest = settled(cs.drop_last());
        match cs.last().1.inner.evaluated() {
            ConstraintExpr::Integer(v) => rest.push(Loc { inner: (cs.last().0, v), span: cs.last().1.span }),
            _ => rest,
        }
    }
}

/// The constraints that evaluating a list leaves open, in their evaluated form.
pub open spec fn unsettled(cs: Seq<(InnerTypeVar, Loc<ConstraintExpr>)>) -> Seq<(InnerTypeVar, Loc<ConstraintExpr>)>
    decreases cs.len(),
{
    if cs.len() == 0 {
        Seq::empty()
    } else {
        let rest = unsettled(cs.drop_last());
        match cs.last().1.inner.evaluated() {
            ConstraintExpr::Integer(_) => rest,
            e => rest.push((cs.last().0, Loc { inner: e, span: cs.last().1.span })),
        }
    }
}

impl TypeConstraints {
    pub fn new() -> (r: TypeConstraints)
        ensures
            r.inner@.len() == 0,
    {
        TypeConstraints { inner: Vec::new() }
    }

    pub fn add_constraint(&mut self, lhs: InnerTypeVar, rhs: Loc<ConstraintExpr>)
        ensures
            final(self).inner@ == old(self).inner@.push((lhs, rhs)),
    {
        self.inner.push((lhs, rhs));
    }

    /// Evaluates every constraint. Those that now equate their variable with an integer
    /// are removed and returned; the others stay, evaluated.
    pub fn update_constraints(&mut self) -> (r: Vec<Loc<(InnerTypeVar, i128)>>)
        ensures
            r@ == settled(old(self).inner@),
            final(self).inner@ == unsettled(old(self).inner@),
    {
        let mut new_known: Vec<Loc<(InnerTypeVar, i128)>> = Vec::new();
        let mut remaining: Vec<(InnerTypeVar, Loc<ConstraintExpr>)> = Vec::new();
        let mut i: usize = 0;
        while i < self.inner.len()
            invariant
                0 <= i <= self.inner@.len(),
                self.inner@ == old(self).inner@,
                new_known@ == settled(self.inner@.subrange(0, i as int)),
                remaining@ == unsettled(self.inner@.subrange(0, i as int)),
            decreases self.inner@.len() - i,
        {
            assert(self.inner@.subrange(0, i + 1).drop_last() =~= self.inner@.subrange(0, i as int));
            let (var, constraint) = &self.inner[i];
            let result = constraint.inner.evaluate();
            match result {
                ConstraintExpr::Integer(val) => {
                    new_known.push(Loc { inner: (*var, val), span: constraint.span });
                },
                other => {
                    remaining.push((*var, Loc { inner: other, span: constraint.span }));
                },
            }
            i += 1;
        }
        assert(self.inner@.subrange(0, i as int) =~= self.inner@);
        self.inner = remaining;
        new_known
    }
}

} // verus!
