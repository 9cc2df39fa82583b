use vstd::prelude::*;

use crate::lexer::TokenKind;
use crate::location::Loc;
use crate::text::push_text;

verus! {

/// An identifier as written in the source.
#[derive(Debug, PartialEq, Clone)]
pub struct Identifier(pub String);

/// A path of identifiers, as written in the source.
#[derive(Debug)]
pub struct Path(pub Vec<Loc<Identifier>>);

/// The segments of a path joined by `::`.
pub open spec fn joined_path(segments: Seq<Loc<Identifier>>) -> Seq<char>
    decreases segments.len(),
{
    if segments.len() == 0 {
        Seq::empty()
    } else if segments.len() == 1 {
        segments[0].inner.0@
    } else {
        joined_path(segments.drop_last()) + "::"@ + segments.last().inner.0@
    }
}

impl Path {
    /// The path as it is written, its segments separated by `::`.
    pub fn to_string(&self) -> (r: String)
        ensures
            r@ == joined_path(self.0@),
    {
        let mut s = String::new();
        let mut i: usize = 0;
        while i < self.0.len()
            invariant
                0 <= i <= self.0@.len(),
                s@ == joined_path(self.0@.subrange(0, i as int)),
            decreases self.0@.len() - i,
        {
            assert(self.0@.subrange(0, i + 1).drop_last() =~= self.0@.subrange(0, i as int));
            if i > 0 {
                push_text(&mut s, "::");
            }
            push_text(&mut s, self.0[i].inner.0.as_str());
            proof {
                if i == 0 {
                    assert(s@ =~= joined_path(self.0@.subrange(0, 1)));
                }
            }
            i += 1;
        }
        assert(self.0@.subrange(0, i as int) =~= self.0@);
        s
    }

    /// The segments of the path.
    pub fn as_strs(&self) -> (r: Vec<&str>)
        ensures
            r@.len() == self.0@.len(),
            forall|i: int| 0 <= i < r@.len() ==> (#[trigger] r@[i])@ == self.0@[i].inner.0@,
    {
        let mut r: Vec<&str> = Vec::new();
        let mut i: usize = 0;
        while i < self.0.len()
            invariant
                0 <= i <= self.0@.len(),
                r@.len() == i,
                forall|j: int| 0 <= j < i ==> (#[trigger] r@[j])@ == self.0@[j].inner.0@,
            decreases self.0@.len() - i,
        {
            r.push(self.0[i].inner.0.as_str());
            i += 1;
        }
        r
    }

    /// The segments of the path, as owned strings.
    pub fn as_strings(&self) -> (r: Vec<String>)
        ensures
            r@.len() == self.0@.len(),
            forall|i: int| 0 <= i < r@.len() ==> (#[trigger] r@[i])@ == self.0@[i].inner.0@,
    {
        let mut r: Vec<String> = Vec::new();
        let mut i: usize = 0;
        while i < self.0.len()
            invariant
                0 <= i <= self.0@.len(),
                r@.len() == i,
                forall|j: int| 0 <= j < i ==> (#[trigger] r@[j])@ == self.0@[j].inner.0@,
            decreases self.0@.len() - i,
        {
            r.push(self.0[i].inner.0.clone());
            i += 1;
        }
        r
    }
}

#[derive(Debug)]
pub enum Type {
    Named(Path),
    WithSize(Box<Loc<Type>>, Loc<Expression>),
    UnitType,
}

#[derive(Debug)]
pub enum Expression {
    Identifier(Loc<Path>),
    IntLiteral(u128),
    If(Box<Loc<Expression>>, Box<Loc<Expression>>, Box<Loc<Expression>>),
    BinaryOperator(Box<Loc<Expression>>, TokenKind, Box<Loc<Expression>>),
    Block(Box<Block>),
}

#[derive(Debug)]
pub struct Block {
    pub statements: Vec<Loc<Statement>>,
    pub result: Loc<Expression>,
}

#[derive(Debug)]
pub enum Statement {
    Binding(Loc<Identifier>, Option<Loc<Type>>, Loc<Expression>),
    Register(Loc<Register>),
}

#[derive(Debug)]
pub struct Entity {
    pub name: Loc<Identifier>,
    pub inputs: Vec<(Loc<Identifier>, Loc<Type>)>,
    pub output_type: Loc<Type>,
    /// Always a block, once checked; an expression for the sake of id assignment.
    pub body: Loc<Expression>,
}

#[derive(Debug)]
pub struct Register {
    pub name: Loc<Identifier>,
    pub clock: Loc<Path>,
    pub reset: Option<(Loc<Expression>, Loc<Expression>)>,
    pub value: Loc<Expression>,
    pub value_type: Option<Loc<Type>>,
}

/// What may stand at the top level of a module.
#[derive(Debug)]
pub enum Item {
    Entity(Loc<Entity>),
}

#[derive(Debug)]
pub struct ModuleBody {
    pub members: Vec<Item>,
}

} // verus!
