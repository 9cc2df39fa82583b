use vstd::prelude::*;

use crate::location::{Loc, Span};
use crate::name::{Identifier, NameID, Path};

verus! {

#[derive(Clone, Copy, PartialEq, Eq, Debug, Structural)]
pub enum BinaryOperator {
    Add,
    Sub,
    Mul,
    Eq,
    Gt,
    Lt,
    Ge,
    Le,
    LeftShift,
    RightShift,
    LogicalAnd,
    LogicalOr,
    LogicalXor,
    BitwiseOr,
    BitwiseAnd,
    BitwiseXor,
}

#[derive(Clone, Copy, PartialEq, Eq, Debug, Structural)]
pub enum UnaryOperator {
    Sub,
    Not,
    BitwiseNot,
    Dereference,
    Reference,
}

/// How an argument is bound to a parameter.
#[derive(Clone, Copy, PartialEq, Eq, Debug, Structural)]
pub enum ArgumentKind {
    Positional,
    Named,
    ShortNamed,
}

#[derive(Debug)]
pub enum NamedArgument {
    /// Binds the argument named on the left to the expression.
    Full(Loc<Identifier>, Loc<Expression>),
    /// Binds a local variable to the argument of the same name.
    Short(Loc<Identifier>, Loc<Expression>),
}

#[derive(Debug)]
pub enum ArgumentList {
    Named(Vec<NamedArgument>),
    Positional(Vec<Loc<Expression>>),
}

#[derive(Debug)]
pub struct Argument {
    pub target: Loc<Identifier>,
    pub value: Loc<Expression>,
    pub kind: ArgumentKind,
}

/// What a call instantiates.
#[derive(Debug)]
pub enum CallKind {
    Function,
    /// An entity, with the place of its `inst` keyword.
    Entity(Span),
    /// A pipeline of the given depth, with the place of its `inst` keyword.
    Pipeline(Span, Loc<u128>),
}

#[derive(Clone, Copy, PartialEq, Eq, Debug, Structural)]
pub enum BitLiteral {
    Low,
    High,
    HighImp,
}

#[derive(Debug)]
#[allow(inconsistent_fields)]
pub enum ExprKind {
    Identifier(NameID),
    IntLiteral(u128),
    BoolLiteral(bool),
    BitLiteral(BitLiteral),
    CreatePorts,
    StageReady,
    StageValid,
    TupleLiteral(Vec<Loc<Expression>>),
    ArrayLiteral(Vec<Loc<Expression>>),
    Index(Box<Loc<Expression>>, Box<Loc<Expression>>),
    TupleIndex(Box<Loc<Expression>>, Loc<u128>),
    FieldAccess(Box<Loc<Expression>>, Loc<Identifier>),
    MethodCall { target: Box<Loc<Expression>>, name: Loc<Identifier>, args: Loc<ArgumentList> },
    Call { kind: CallKind, callee: Loc<NameID>, args: Loc<ArgumentList> },
    BinaryOperator(Box<Loc<Expression>>, BinaryOperator, Box<Loc<Expression>>),
    UnaryOperator(UnaryOperator, Box<Loc<Expression>>),
    Match(Box<Loc<Expression>>, Vec<(Loc<Pattern>, Loc<Expression>)>),
    Block(Box<Block>),
    If(Box<Loc<Expression>>, Box<Loc<Expression>>, Box<Loc<Expression>>),
    /// A reference to the value of `name` in an absolute pipeline stage.
    PipelineRef { stage: Loc<usize>, name: Loc<NameID>, declares_name: bool },
    /// A placeholder that earlier passes remove.
    Null,
}

/// An expression and the id under which its type is known.
#[derive(Debug)]
pub struct Expression {
    pub kind: ExprKind,
    pub id: u64,
}

impl ExprKind {
    pub fn with_id(self, id: u64) -> (r: Expression)
        ensures
            r.kind == self,
            r.id == id,
    {
        Expression { kind: self, id }
    }

    pub fn idless(self) -> (r: Expression)
        ensures
            r.kind == self,
            r.id == 0,
    {
        Expression { kind: self, id: 0 }
    }
}

impl Expression {
    /// An expression with the given id that refers to the variable `name` with the
    /// given name id.
    pub fn ident(expr_id: u64, name_id: u64, name: &str) -> (r: Expression)
        ensures
            r.id == expr_id,
            r.kind is Identifier,
            (r.kind->Identifier_0).0 == name_id,
            (r.kind->Identifier_0).1.0@.len() == 1,
            (r.kind->Identifier_0).1.0@[0].0@ == name@,
    {
        let mut segments: Vec<Identifier> = Vec::new();
        segments.push(Identifier(name.to_owned()));
        ExprKind::Identifier(NameID(name_id, Path(segments))).with_id(expr_id)
    }

    /// The block that this expression is.
    pub fn assume_block(&self) -> (r: &Block)
        requires
            self.kind is Block,
        ensures
            *r == *(self.kind->Block_0),
    {
        match &self.kind {
            ExprKind::Block(block) => block,
            _ => { proof { assert(false); } unreached() },
        }
    }
}

impl ArgumentList {
    /// The argument expressions, in the order they were written.
    pub fn expressions(&self) -> (r: Vec<&Loc<Expression>>)
        ensures
            r@.len() == self.len(),
            forall|i: int| 0 <= i < r@.len() ==> *r@[i] == self.expression(i),
    {
        let mut r: Vec<&Loc<Expression>> = Vec::new();
        match self {
            ArgumentList::Named(n) => {
                let mut i: usize = 0;
                while i < n.len()
                    invariant
                        0 <= i <= n@.len(),
                        *self == ArgumentList::Named(*n),
                        r@.len() == i,
                        forall|j: int| 0 <= j < i ==> *r@[j] == self.expression(j),
                    decreases n@.len() - i,
                {
                    match &n[i] {
                        NamedArgument::Full(_, expr) => r.push(expr),
                        NamedArgument::Short(_, expr) => r.push(expr),
                    }
                    i += 1;
                }
            },
            ArgumentList::Positional(args) => {
                let mut i: usize = 0;
                while i < args.len()
                    invariant
                        0 <= i <= args@.len(),
                        *self == ArgumentList::Positional(*args),
                        r@.len() == i,
                        forall|j: int| 0 <= j < i ==> *r@[j] == self.expression(j),
                    decreases args@.len() - i,
                {
                    r.push(&args[i]);
                    i += 1;
                }
            },
        }
        r
    }

    pub open spec fn len(&self) -> nat {
        match self {
            ArgumentList::Named(n) => n@.len(),
            ArgumentList::Positional(a) => a@.len(),
        }
    }

    /// The `i`th argument expression.
    pub open spec fn expression(&self, i: int) -> Loc<Expression> {
        match self {
            ArgumentList::Named(n) => match n@[i] {
                NamedArgument::Full(_, e) => e,
                NamedArgument::Short(_, e) => e,
            },
            ArgumentList::Positional(a) => a@[i],
        }
    }
}

#[derive(Debug)]
pub struct Block {
    pub statements: Vec<Loc<Statement>>,
    pub result: Option<Loc<Expression>>,
}

#[derive(Debug)]
pub struct PatternArgument {
    pub target: Loc<Identifier>,
    pub value: Loc<Pattern>,
    pub kind: ArgumentKind,
}

#[derive(Debug)]
pub enum PatternKind {
    Integer(u128),
    Bool(bool),
    Name { name: Loc<NameID>, pre_declared: bool },
    Tuple(Vec<Loc<Pattern>>),
    /// A constructor pattern; its arguments are ordered as the constructor's parameters.
    Type(Loc<NameID>, Vec<PatternArgument>),
}

impl PatternKind {
    /// A pattern that binds a new variable.
    pub fn name(name: Loc<NameID>) -> (r: PatternKind)
        ensures
            r == (PatternKind::Name { name, pre_declared: false }),
    {
        PatternKind::Name { name, pre_declared: false }
    }

    pub fn with_id(self, id: u64) -> (r: Pattern)
        ensures
            r.kind == self,
            r.id == id,
    {
        Pattern { id, kind: self }
    }

    pub fn idless(self) -> (r: Pattern)
        ensures
            r.kind == self,
            r.id == 0,
    {
        Pattern { id: 0, kind: self }
    }
}

#[derive(Debug)]
pub struct Pattern {
    /// The id under which the pattern's type is known; shared with expressions.
    pub id: u64,
    pub kind: PatternKind,
}

#[derive(Debug)]
pub struct Binding {
    pub pattern: Loc<Pattern>,
    pub ty: Option<Loc<TypeSpec>>,
    pub value: Loc<Expression>,
    /// The suffix under which the bound value is traced, if any.
    pub wal_trace: Option<Loc<Identifier>>,
}

#[derive(Debug)]
pub struct Register {
    pub pattern: Loc<Pattern>,
    pub clock: Loc<Expression>,
    pub reset: Option<(Loc<Expression>, Loc<Expression>)>,
    pub value: Loc<Expression>,
    pub value_type: Option<Loc<TypeSpec>>,
}

#[derive(Debug)]
#[allow(inconsistent_fields)]
pub enum Statement {
    Binding(Binding),
    Register(Loc<Register>),
    Declaration(Vec<Loc<NameID>>),
    /// The end of a pipeline stage, with the condition under which the stage is
    /// enabled, if it has one.
    PipelineRegMarker(Option<Loc<Expression>>),
    Label(Loc<NameID>),
    Assert(Loc<Expression>),
    WalSuffixed { suffix: Identifier, target: Loc<NameID> },
    Assign { target: Loc<Expression>, value: Loc<Expression> },
}

/// A type parameter: its name as written and its resolved name.
#[derive(Debug)]
pub enum TypeParam {
    TypeName(Identifier, NameID),
    Integer(Identifier, NameID),
}

impl TypeParam {
    pub fn name_id(&self) -> (r: NameID)
        ensures
            r.0 == (match self {
                TypeParam::TypeName(_, n) => n.0,
                TypeParam::Integer(_, n) => n.0,
            }),
    {
        match self {
            TypeParam::TypeName(_, n) => n.clone(),
            TypeParam::Integer(_, n) => n.clone(),
        }
    }
}

#[derive(Debug)]
pub enum TypeExpression {
    /// An integer value.
    Integer(u128),
    /// Another type.
    TypeSpec(TypeSpec),
}

/// A type as written in the source: of a parameter, a field, a binding.
#[derive(Debug)]
pub enum TypeSpec {
    /// A declared type with its arguments.
    Declared(Loc<NameID>, Vec<Loc<TypeExpression>>),
    /// A generic parameter in scope.
    Generic(Loc<NameID>),
    Tuple(Vec<Loc<TypeSpec>>),
    Array { inner: Box<Loc<TypeSpec>>, size: Box<Loc<TypeExpression>> },
    Unit(Span),
}

impl TypeSpec {
    pub fn unit() -> (r: TypeSpec)
        ensures
            r == TypeSpec::Unit(Span { file_id: 0, start: 0, end: 0 }),
    {
        TypeSpec::Unit(Span::nowhere())
    }
}

/// The primitive types of the language.
#[derive(Clone, Copy, PartialEq, Eq, Debug, Structural)]
pub enum PrimitiveType {
    Int,
    Uint,
    Clock,
    Bool,
    Bit,
    Memory,
    InOut,
}

#[derive(Debug)]
pub struct Enum {
    pub options: Vec<(Loc<NameID>, ParameterList)>,
}

#[derive(Debug)]
pub struct Struct {
    pub members: ParameterList,
}

#[derive(Debug)]
pub enum TypeDeclKind {
    Enum(Loc<Enum>),
    Primitive(PrimitiveType),
    Struct(Loc<Struct>),
}

/// The declaration of a type.
#[derive(Debug)]
pub struct TypeDeclaration {
    pub name: Loc<NameID>,
    pub kind: TypeDeclKind,
    pub generic_args: Vec<Loc<TypeParam>>,
}

#[derive(Debug)]
pub struct ParameterList(pub Vec<(Loc<Identifier>, Loc<TypeSpec>)>);

impl ParameterList {
    pub fn argument_num(&self) -> (r: usize)
        ensures
            r == self.0@.len(),
    {
        self.0.len()
    }

    /// The position of the first parameter named `name`, if any.
    pub fn try_get_arg_position(&self, name: &Identifier) -> (r: Option<usize>)
        ensures
            match r {
                Some(i) => i < self.0@.len() && self.0@[i as int].0.inner.0@ == name.0@
                    && forall|j: int| 0 <= j < i ==> self.0@[j].0.inner.0@ != name.0@,
                None => forall|j: int| 0 <= j < self.0@.len() ==> self.0@[j].0.inner.0@ != name.0@,
            },
    {
        let mut i: usize = 0;
        while i < self.0.len()
            invariant
                0 <= i <= self.0@.len(),
                forall|j: int| 0 <= j < i ==> self.0@[j].0.inner.0@ != name.0@,
            decreases self.0@.len() - i,
        {
            if self.0[i].0.inner.0 == name.0 {
                return Some(i);
            }
            i += 1;
        }
        None
    }

    /// The type of the first parameter named `name`, if any.
    pub fn try_get_arg_type(&self, name: &Identifier) -> (r: Option<&TypeSpec>)
        ensures
            match r {
                Some(t) => exists|i: int| 0 <= i < self.0@.len()
                    && self.0@[i].0.inner.0@ == name.0@
                    && (forall|j: int| 0 <= j < i ==> self.0@[j].0.inner.0@ != name.0@)
                    && *t == self.0@[i].1.inner,
                None => forall|j: int| 0 <= j < self.0@.len() ==> self.0@[j].0.inner.0@ != name.0@,
            },
    {
        match self.try_get_arg_position(name) {
            Some(i) => Some(&self.0[i].1.inner),
            None => None,
        }
    }

    /// The type of the parameter named `name`, which the list must hold.
    pub fn arg_type(&self, name: &Identifier) -> (r: &TypeSpec)
        requires
            exists|i: int| 0 <= i < self.0@.len() && self.0@[i].0.inner.0@ == name.0@,
        ensures
            exists|i: int| 0 <= i < self.0@.len()
                && self.0@[i].0.inner.0@ == name.0@
                && (forall|j: int| 0 <= j < i ==> self.0@[j].0.inner.0@ != name.0@)
                && *r == self.0@[i].1.inner,
    {
        match self.try_get_arg_type(name) {
            Some(t) => t,
            None => { proof { assert(false); } unreached() },
        }
    }

    /// The position of the parameter named `target`, where at most one has that name.
    pub fn arg_index(&self, target: &Identifier) -> (r: Option<usize>)
        requires
            forall|i: int, j: int| 0 <= i < j < self.0@.len() && self.0@[i].0.inner.0@ == target.0@
                ==> self.0@[j].0.inner.0@ != target.0@,
        ensures
            match r {
                Some(i) => i < self.0@.len() && self.0@[i as int].0.inner.0@ == target.0@,
                None => forall|j: int| 0 <= j < self.0@.len() ==> self.0@[j].0.inner.0@ != target.0@,
            },
    {
        self.try_get_arg_position(target)
    }
}

#[derive(Debug)]
pub struct FunctionHead {
    pub inputs: ParameterList,
    pub output_type: Option<Loc<TypeSpec>>,
    pub type_params: Vec<Loc<TypeParam>>,
}

#[derive(Debug)]
pub struct EntityHead {
    pub inputs: ParameterList,
    pub output_type: Option<Loc<TypeSpec>>,
    pub type_params: Vec<Loc<TypeParam>>,
}

#[derive(Debug)]
pub struct PipelineHead {
    pub depth: Loc<usize>,
    pub inputs: ParameterList,
    pub output_type: Option<Loc<TypeSpec>>,
    pub type_params: Vec<Loc<TypeParam>>,
}

/// What entities, functions and pipelines have in common: their parameters, output
/// type and type parameters.
pub trait FunctionLike {
    fn inputs(&self) -> &ParameterList;

    fn output_type(&self) -> &Option<Loc<TypeSpec>>;

    fn type_params(&self) -> &[Loc<TypeParam>];
}

impl FunctionLike for EntityHead {
    fn inputs(&self) -> &ParameterList {
        &self.inputs
    }

    fn output_type(&self) -> &Option<Loc<TypeSpec>> {
        &self.output_type
    }

    fn type_params(&self) -> &[Loc<TypeParam>] {
        self.type_params.as_slice()
    }
}

impl FunctionLike for FunctionHead {
    fn inputs(&self) -> &ParameterList {
        &self.inputs
    }

    fn output_type(&self) -> &Option<Loc<TypeSpec>> {
        &self.output_type
    }

    fn type_params(&self) -> &[Loc<TypeParam>] {
        self.type_params.as_slice()
    }
}

impl FunctionLike for PipelineHead {
    fn inputs(&self) -> &ParameterList {
        &self.inputs
    }

    fn output_type(&self) -> &Option<Loc<TypeSpec>> {
        &self.output_type
    }

    fn type_params(&self) -> &[Loc<TypeParam>] {
        self.type_params.as_slice()
    }
}

/// The definition of a pipeline binding: its pattern, type and value.
#[derive(Debug)]
pub struct PipelineBinding {
    pub pat: Loc<Pattern>,
    pub type_spec: Option<Loc<TypeSpec>>,
    pub value: Loc<Expression>,
}

#[derive(Debug)]
pub struct PipelineStage {
    pub bindings: Vec<Loc<PipelineBinding>>,
}

#[derive(Debug)]
pub struct Entity {
    pub name: Loc<NameID>,
    pub head: EntityHead,
    pub inputs: Vec<(NameID, Loc<TypeSpec>)>,
    pub body: Loc<Expression>,
}

#[derive(Debug)]
pub struct Pipeline {
    pub head: PipelineHead,
    pub name: Loc<NameID>,
    pub inputs: Vec<(NameID, Loc<TypeSpec>)>,
    pub body: Loc<Expression>,
}

#[derive(Debug)]
pub enum Item {
    Entity(Loc<Entity>),
    Pipeline(Loc<Pipeline>),
}

/// Items that have code of their own, as opposed to type declarations.
#[derive(Debug)]
pub enum ExecutableItem {
    EnumInstance { base_enum: NameID, variant: usize },
    StructInstance,
    Entity(Loc<Entity>),
    Pipeline(Loc<Pipeline>),
}

/// All items of a program, flattened out of their modules.
#[derive(Debug)]
pub struct ItemList {
    pub executables: Vec<(NameID, ExecutableItem)>,
    pub types: Vec<(NameID, Loc<TypeDeclaration>)>,
}

impl ItemList {
    pub fn new() -> (r: ItemList)
        ensures
            r.executables@.len() == 0,
            r.types@.len() == 0,
    {
        ItemList { executables: Vec::new(), types: Vec::new() }
    }
}

/// The ids of the names that a pattern binds, from left to right.
pub open spec fn pattern_names(kind: PatternKind) -> Seq<u64>
    decreases kind, 0int,
{
    match kind {
        PatternKind::Integer(_) => Seq::empty(),
        PatternKind::Bool(_) => Seq::empty(),
        PatternKind::Name { name, .. } => seq![name.inner.0],
        PatternKind::Tuple(inner) => pattern_list_names(inner@, inner@.len() as int),
        PatternKind::Type(_, args) => argument_list_names(args@, args@.len() as int),
    }
}

/// The names bound by the first `n` patterns of a list.
pub open spec fn pattern_list_names(ps: Seq<Loc<Pattern>>, n: int) -> Seq<u64>
    decreases ps, n,
{
    if n <= 0 || n > ps.len() {
        Seq::empty()
    } else {
        pattern_list_names(ps, n - 1) + pattern_names(ps[n - 1].inner.kind)
    }
}

/// The names bound by the first `n` argument patterns of a constructor pattern.
pub open spec fn argument_list_names(args: Seq<PatternArgument>, n: int) -> Seq<u64>
    decreases args, n,
{
    if n <= 0 || n > args.len() {
        Seq::empty()
    } else {
        argument_list_names(args, n - 1) + pattern_names(args[n - 1].value.inner.kind)
    }
}

impl Pattern {
    /// The names that this pattern binds, from left to right.
    pub fn get_names(&self) -> (r: Vec<NameID>)
        ensures
            r@.map_values(|n: NameID| n.0) == pattern_names(self.kind),
    {
        let mut out: Vec<NameID> = Vec::new();
        collect_names(&self.kind, &mut out);
        out
    }
}

/// Appends the names that a pattern binds to `out`.
fn collect_names(kind: &PatternKind, out: &mut Vec<NameID>)
    ensures
        final(out)@.map_values(|n: NameID| n.0) == old(out)@.map_values(|n: NameID| n.0) + pattern_names(*kind),
    decreases *kind, 0int,
{
    match kind {
        PatternKind::Integer(_) => {
            assert(old(out)@.map_values(|n: NameID| n.0) + Seq::<u64>::empty() =~= old(out)@.map_values(|n: NameID| n.0));
        },
        PatternKind::Bool(_) => {
            assert(old(out)@.map_values(|n: NameID| n.0) + Seq::<u64>::empty() =~= old(out)@.map_values(|n: NameID| n.0));
        },
        PatternKind::Name { name, .. } => {
            out.push(name.inner.clone());
            assert(out@.map_values(|n: NameID| n.0) =~= old(out)@.map_values(|n: NameID| n.0) + seq![name.inner.0]);
        },
        PatternKind::Tuple(inner) => collect_list_names(inner, out),
        PatternKind::Type(_, args) => collect_argument_names(args, out),
    }
}

fn collect_list_names(ps: &Vec<Loc<Pattern>>, out: &mut Vec<NameID>)
    ensures
        final(out)@.map_values(|n: NameID| n.0) == old(out)@.map_values(|n: NameID| n.0)
            + pattern_list_names(ps@, ps@.len() as int),
    decreases ps@, ps@.len() + 1int,
{
    let mut i: usize = 0;
    assert(old(out)@.map_values(|n: NameID| n.0) + pattern_list_names(ps@, 0) =~= old(out)@.map_values(|n: NameID| n.0));
    while i < ps.len()
        invariant
            0 <= i <= ps@.len(),
            out@.map_values(|n: NameID| n.0) == old(out)@.map_values(|n: NameID| n.0) + pattern_list_names(ps@, i as int),
        decreases ps@.len() - i,
    {
        proof { assert(decreases_to!(ps@ => ps@[i as int].inner.kind)); }
        collect_names(&ps[i].inner.kind, out);
        assert(out@.map_values(|n: NameID| n.0) =~= old(out)@.map_values(|n: NameID| n.0) + pattern_list_names(ps@, i + 1));
        i += 1;
    }
}

fn collect_argument_names(args: &Vec<PatternArgument>, out: &mut Vec<NameID>)
    ensures
        final(out)@.map_values(|n: NameID| n.0) == old(out)@.map_values(|n: NameID| n.0)
            + argument_list_names(args@, args@.len() as int),
    decreases args@, args@.len() + 1int,
{
    let mut i: usize = 0;
    assert(old(out)@.map_values(|n: NameID| n.0) + argument_list_names(args@, 0) =~= old(out)@.map_values(|n: NameID| n.0));
    while i < args.len()
        invariant
            0 <= i <= args@.len(),
            out@.map_values(|n: NameID| n.0) == old(out)@.map_values(|n: NameID| n.0) + argument_list_names(args@, i as int),
        decreases args@.len() - i,
    {
        proof { assert(decreases_to!(args@ => args@[i as int].value.inner.kind)); }
        collect_names(&args[i].value.inner.kind, out);
        assert(out@.map_values(|n: NameID| n.0) =~= old(out)@.map_values(|n: NameID| n.0) + argument_list_names(args@, i + 1));
        i += 1;
    }
}

} // verus!
