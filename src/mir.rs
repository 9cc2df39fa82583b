use vstd::prelude::*;

use crate::location::{Loc, Span};
use crate::name::{Identifier, NameID, Path as NamePath};
use crate::text::{decimal, push_decimal, push_signed, push_text, signed_decimal};

verus! {

/// The type of a circuit signal.
#[derive(Debug)]
pub enum Type {
    Int(u128),
    UInt(u128),
    Bool,
    Clock,
    Tuple(Vec<Type>),
    Array { inner: Box<Type>, length: u128 },
    Memory { inner: Box<Type>, length: u128 },
    Enum(Vec<Vec<Type>>),
    Backward(Box<Type>),
}

/// Whether two types are the same, part by part.
pub open spec fn same_type(a: Type, b: Type) -> bool
    decreases a, 0int,
{
    match a {
        Type::Int(x) => b == Type::Int(x),
        Type::UInt(x) => b == Type::UInt(x),
        Type::Bool => b == Type::Bool,
        Type::Clock => b == Type::Clock,
        Type::Tuple(xs) => match b {
            Type::Tuple(ys) => xs@.len() == ys@.len() && same_types(xs@, ys@, xs@.len() as int),
            _ => false,
        },
        Type::Array { inner, length } => match b {
            Type::Array { inner: other, length: l } => l == length && same_type(*inner, *other),
            _ => false,
        },
        Type::Memory { inner, length } => match b {
            Type::Memory { inner: other, length: l } => l == length && same_type(*inner, *other),
            _ => false,
        },
        Type::Enum(xs) => match b {
            Type::Enum(ys) => xs@.len() == ys@.len() && same_variants(xs@, ys@, xs@.len() as int),
            _ => false,
        },
        Type::Backward(inner) => match b {
            Type::Backward(other) => same_type(*inner, *other),
            _ => false,
        },
    }
}

/// Whether the first `n` types of two lists are the same.
pub open spec fn same_types(xs: Seq<Type>, ys: Seq<Type>, n: int) -> bool
    decreases xs, n,
{
    if n <= 0 || n > xs.len() || n > ys.len() {
        n <= 0
    } else {
        same_types(xs, ys, n - 1) && same_type(xs[n - 1], ys[n - 1])
    }
}

/// Whether the first `n` variants of two enum types are the same.
pub open spec fn same_variants(xs: Seq<Vec<Type>>, ys: Seq<Vec<Type>>, n: int) -> bool
    decreases xs, n,
{
    if n <= 0 || n > xs.len() || n > ys.len() {
        n <= 0
    } else {
        same_variants(xs, ys, n - 1) && xs[n - 1]@.len() == ys[n - 1]@.len()
            && same_types(xs[n - 1]@, ys[n - 1]@, xs[n - 1]@.len() as int)
    }
}

proof fn lemma_same_types_push(xs: Seq<Type>, ys: Seq<Type>, y: Type, n: int)
    requires
        0 <= n <= ys.len(),
    ensures
        same_types(xs, ys.push(y), n) == same_types(xs, ys, n),
    decreases n,
{
    if n > 0 {
        lemma_same_types_push(xs, ys, y, n - 1);
        assert(ys.push(y)[n - 1] == ys[n - 1]);
    }
}

proof fn lemma_same_variants_push(xs: Seq<Vec<Type>>, ys: Seq<Vec<Type>>, y: Vec<Type>, n: int)
    requires
        0 <= n <= ys.len(),
    ensures
        same_variants(xs, ys.push(y), n) == same_variants(xs, ys, n),
    decreases n,
{
    if n > 0 {
        lemma_same_variants_push(xs, ys, y, n - 1);
        assert(ys.push(y)[n - 1] == ys[n - 1]);
    }
}

impl Clone for Type {
    fn clone(&self) -> (r: Type)
        ensures
            same_type(*self, r),
            (*self is Bool) ==> r == Type::Bool,
            (*self is Clock) ==> r == Type::Clock,
        decreases self, 0int,
    {
        match self {
            Type::Int(n) => Type::Int(*n),
            Type::UInt(n) => Type::UInt(*n),
            Type::Bool => Type::Bool,
            Type::Clock => Type::Clock,
            Type::Tuple(inner) => Type::Tuple(clone_types(inner)),
            Type::Array { inner, length } => Type::Array { inner: Box::new((**inner).clone()), length: *length },
            Type::Memory { inner, length } => Type::Memory { inner: Box::new((**inner).clone()), length: *length },
            Type::Enum(variants) => Type::Enum(clone_variants(variants)),
            Type::Backward(inner) => Type::Backward(Box::new((**inner).clone())),
        }
    }
}

fn clone_types(types: &Vec<Type>) -> (r: Vec<Type>)
    ensures
        r@.len() == types@.len(),
        same_types(types@, r@, types@.len() as int),
    decreases types@, types@.len() + 1int,
{
    let mut r: Vec<Type> = Vec::new();
    let mut i: usize = 0;
    while i < types.len()
        invariant
            0 <= i <= types@.len(),
            r@.len() == i,
            same_types(types@, r@, i as int),
        decreases types@.len() - i,
    {
        proof { assert(decreases_to!(types@ => types@[i as int])); }
        let c = types[i].clone();
        let ghost before = r@;
        r.push(c);
        proof {
            lemma_same_types_push(types@, before, c, i as int);
            assert(r@ == before.push(c));
            assert(r@[i as int] == c);
        }
        i += 1;
    }
    r
}

fn clone_variants(variants: &Vec<Vec<Type>>) -> (r: Vec<Vec<Type>>)
    ensures
        r@.len() == variants@.len(),
        same_variants(variants@, r@, variants@.len() as int),
    decreases variants@, variants@.len() + 1int,
{
    let mut r: Vec<Vec<Type>> = Vec::new();
    let mut i: usize = 0;
    while i < variants.len()
        invariant
            0 <= i <= variants@.len(),
            r@.len() == i,
            same_variants(variants@, r@, i as int),
        decreases variants@.len() - i,
    {
        proof { assert(decreases_to!(variants@ => variants@[i as int]@)); }
        let c = clone_types(&variants[i]);
        let ghost before = r@;
        r.push(c);
        proof {
            lemma_same_variants_push(variants@, before, c, i as int);
            assert(r@ == before.push(c));
            assert(r@[i as int] == c);
        }
        i += 1;
    }
    r
}

/// A compile-time constant.
#[derive(Clone, Debug, PartialEq, Eq)]
pub enum ConstantValue {
    Int(i128),
    Bool(bool),
}

impl ConstantValue {
    pub fn integer(val: i32) -> (r: ConstantValue)
        ensures
            r == ConstantValue::Int(val as i128),
    {
        ConstantValue::Int(val as i128)
    }

    pub open spec fn text(&self) -> Seq<char> {
        match self {
            ConstantValue::Int(v) => signed_decimal(*v as int),
            ConstantValue::Bool(b) => if *b { "true"@ } else { "false"@ },
        }
    }

    /// The constant as it is written.
    pub fn to_string(&self) -> (r: String)
        ensures
            r@ == self.text(),
    {
        let mut s = String::new();
        match self {
            ConstantValue::Int(v) => push_signed(&mut s, *v),
            ConstantValue::Bool(b) => push_text(&mut s, if *b { "true" } else { "false" }),
        }
        s
    }
}

/// Where a named value came from: a source variable or a synthesized expression.
#[derive(Debug)]
pub enum ValueNameSource {
    Name(NameID),
    Expr(u64),
}

/// The name of a circuit signal.
#[derive(Debug)]
pub enum ValueName {
    /// A value with a locally unique number, a readable name and its provenance.
    /// The provenance is informational only.
    Named(u64, String, ValueNameSource),
    /// An anonymous value, keyed by a globally unique expression id.
    Expr(u64),
}

/// What identifies a signal: the kind of its name and its number.
#[derive(Clone, Copy, Debug, PartialEq, Eq, Structural)]
pub enum SignalKey {
    Named(u64),
    Expr(u64),
}

/// What identifies a provenance: the kind of its origin and its number.
#[derive(Clone, Copy, Debug, PartialEq, Eq, Structural)]
pub enum SourceKey {
    Name(u64),
    Expr(u64),
}

/// How the name of a value is derived when emitted, and in which direction of a port.
#[derive(Debug)]
pub enum NameSource {
    ForwardName(NameID),
    ForwardExpr(u64),
    BackwardName(NameID),
    BackwardExpr(u64),
}

impl ValueNameSource {
    pub open spec fn key(&self) -> SourceKey {
        match self {
            ValueNameSource::Name(n) => SourceKey::Name(n.0),
            ValueNameSource::Expr(id) => SourceKey::Expr(*id),
        }
    }

    /// The provenance that a value name carries: its own for a named value, the
    /// expression itself for an anonymous one.
    pub fn from_value_name(value: &ValueName) -> (r: ValueNameSource)
        ensures
            r.key() == value.source_key(),
    {
        match value {
            ValueName::Named(_, _, source) => source.clone(),
            ValueName::Expr(id) => ValueNameSource::Expr(*id),
        }
    }
}

impl From<NameID> for ValueNameSource {
    fn from(value: NameID) -> (r: ValueNameSource)
        ensures
            r == ValueNameSource::Name(value),
    {
        ValueNameSource::Name(value)
    }
}

impl vstd::std_specs::convert::FromSpecImpl<NameID> for ValueNameSource {
    open spec fn obeys_from_spec() -> bool {
        true
    }

    open spec fn from_spec(v: NameID) -> ValueNameSource {
        ValueNameSource::Name(v)
    }
}

impl Clone for ValueNameSource {
    fn clone(&self) -> (r: ValueNameSource)
        ensures
            r.key() == self.key(),
    {
        match self {
            ValueNameSource::Name(n) => ValueNameSource::Name(n.clone()),
            ValueNameSource::Expr(id) => ValueNameSource::Expr(*id),
        }
    }
}

impl Clone for ValueName {
    fn clone(&self) -> (r: ValueName)
        ensures
            r.key() == self.key(),
            r.source_key() == self.source_key(),
    {
        match self {
            ValueName::Named(id, s, source) => ValueName::Named(*id, s.clone(), source.clone()),
            ValueName::Expr(id) => ValueName::Expr(*id),
        }
    }
}

impl NameSource {
    /// Whether this is a forward name source, and the number it carries.
    pub open spec fn key(&self) -> (bool, SourceKey) {
        match self {
            NameSource::ForwardName(n) => (true, SourceKey::Name(n.0)),
            NameSource::ForwardExpr(id) => (true, SourceKey::Expr(*id)),
            NameSource::BackwardName(n) => (false, SourceKey::Name(n.0)),
            NameSource::BackwardExpr(id) => (false, SourceKey::Expr(*id)),
        }
    }
}

impl ValueName {
    pub open spec fn key(&self) -> SignalKey {
        match self {
            ValueName::Named(id, _, _) => SignalKey::Named(*id),
            ValueName::Expr(id) => SignalKey::Expr(*id),
        }
    }

    /// The provenance of a value: that of a named value, or the expression itself.
    pub open spec fn source_key(&self) -> SourceKey {
        match self {
            ValueName::Named(_, _, source) => source.key(),
            ValueName::Expr(id) => SourceKey::Expr(*id),
        }
    }

    /// The text of a value name: a named value with number 0 by its name alone, another
    /// by its name and number, an anonymous value by `e` and its number.
    pub open spec fn text(&self) -> Seq<char> {
        match self {
            ValueName::Named(id, s, _) => if *id == 0 {
                s@
            } else {
                s@ + "_n"@ + decimal(*id as nat)
            },
            ValueName::Expr(id) => "e"@ + decimal(*id as nat),
        }
    }

    pub fn to_string(&self) -> (r: String)
        ensures
            r@ == self.text(),
    {
        match self {
            ValueName::Named(id, name, _) => {
                let mut s = name.clone();
                if *id != 0 {
                    push_text(&mut s, "_n");
                    push_decimal(&mut s, *id as u128);
                    assert(s@ =~= self.text());
                }
                s
            },
            ValueName::Expr(id) => {
                let mut s = String::new();
                push_text(&mut s, "e");
                push_decimal(&mut s, *id as u128);
                assert(s@ =~= self.text());
                s
            },
        }
    }

    /// A named value whose provenance is a name with the same number and a one-segment
    /// path, for tests.
    pub fn _test_named(id: u64, name: String) -> (r: ValueName)
        ensures
            r.key() == SignalKey::Named(id),
            r.source_key() == SourceKey::Name(id),
            r is Named && r->Named_1 == name,
    {
        let mut segments: Vec<Identifier> = Vec::new();
        segments.push(Identifier(name.clone()));
        ValueName::Named(id, name, ValueNameSource::Name(NameID(id, NamePath(segments))))
    }

    pub fn verilog_name_source_fwd(&self) -> (r: NameSource)
        ensures
            r.key() == (true, self.source_key()),
    {
        match self {
            ValueName::Named(_, _, ValueNameSource::Name(name_id)) => {
                NameSource::ForwardName(name_id.clone())
            },
            ValueName::Named(_, _, ValueNameSource::Expr(id)) => NameSource::ForwardExpr(*id),
            ValueName::Expr(id) => NameSource::ForwardExpr(*id),
        }
    }

    pub fn verilog_name_source_back(&self) -> (r: NameSource)
        ensures
            r.key() == (false, self.source_key()),
    {
        match self {
            ValueName::Named(_, _, ValueNameSource::Name(name_id)) => {
                NameSource::BackwardName(name_id.clone())
            },
            ValueName::Named(_, _, ValueNameSource::Expr(id)) => NameSource::BackwardExpr(*id),
            ValueName::Expr(id) => NameSource::BackwardExpr(*id),
        }
    }
}

/// The closed set of operators of the circuit IR.
#[derive(Debug)]
pub enum Operator {
    Add,
    Sub,
    Mul,
    Eq,
    NotEq,
    Gt,
    Lt,
    Ge,
    Le,
    LeftShift,
    RightShift,
    ArithmeticRightShift,
    LogicalAnd,
    LogicalOr,
    LogicalXor,
    LogicalNot,
    BitwiseAnd,
    BitwiseOr,
    BitwiseXor,
    USub,
    Not,
    ReadPort,
    BitwiseNot,
    /// Divide operand 0 by 2 to the power of operand 1, rounding towards 0.
    DivPow2,
    /// Sign extend the first operand with the given number of extra bits.
    SignExtend { extra_bits: u128, operand_size: u128 },
    ZeroExtend { extra_bits: u128 },
    /// Truncate the first operand to the size of the target.
    Truncate,
    /// Concatenate the bits of all operands.
    Concat,
    /// Operand 1 if operand 0 holds, else operand 2.
    Select,
    /// Operand 1 if operand 0 holds, else operand 3 if operand 2 holds, and so on.
    Match,
    ConstructArray,
    /// A memory written on the rising edge of operand 0, through the write ports
    /// in operand 1.
    DeclClockedMemory {
        write_ports: u128,
        addr_w: u128,
        inner_w: u128,
        elems: u128,
        initial: Option<Vec<Vec<Statement>>>,
    },
    IndexArray,
    IndexMemory,
    ConstructTuple,
    ConstructEnum { variant: usize, variant_count: usize },
    IsEnumVariant { variant: usize, enum_type: Type },
    EnumMember { enum_type: Type, variant: usize, member_index: usize },
    IndexTuple(u64, Vec<Type>),
    /// Swap the direction of every wire of a port.
    FlipPort,
    /// An instance of another unit, with its operands passed positionally.
    Instance(Path, Option<Span>),
    /// Another name for an existing value.
    Alias,
    /// Declares a value without computing anything.
    Nop,
}

/// The emitted name of an instantiated unit.
pub type Path = Vec<String>;

/// A single-assignment definition of a combinational value.
#[derive(Debug)]
pub struct Binding {
    pub name: ValueName,
    pub operator: Operator,
    pub operands: Vec<ValueName>,
    pub ty: Type,
    pub loc: Option<Span>,
}

/// A clocked state element: on each rising edge of `clock`, `name` takes the value of
/// `value`, or the second element of `reset` while its first holds.
#[derive(Debug)]
pub struct Register {
    pub name: ValueName,
    pub ty: Type,
    pub clock: ValueName,
    pub reset: Option<(ValueName, ValueName)>,
    pub value: ValueName,
    pub loc: Option<Span>,
    /// The state value, where this register holds the state of a traced state machine.
    pub traced: Option<ValueName>,
}

#[derive(Debug)]
pub enum Statement {
    Binding(Binding),
    Register(Register),
    /// A constant with the given expression id.
    Constant(u64, Type, ConstantValue),
    Assert(Loc<ValueName>),
    Assign { target: Loc<ValueName>, value: Loc<ValueName> },
    /// A tracing signal for a field of the value `name`.
    WalTrace { name: ValueName, val: ValueName, suffix: String, ty: Type },
}

#[derive(Debug)]
pub struct MirInput {
    pub name: String,
    pub val_name: ValueName,
    pub ty: Type,
    pub no_mangle: Option<Span>,
}

/// A unit of the circuit IR: its inputs, its statements and the value it outputs.
#[derive(Debug)]
pub struct Entity {
    pub name: Path,
    pub inputs: Vec<MirInput>,
    pub output: ValueName,
    pub output_type: Type,
    pub statements: Vec<Statement>,
}

} // verus!
