use vstd::prelude::*;

use crate::mir::{Binding, Entity, MirInput, Operator, Register, Statement, Type, ValueName};
use crate::text::{decimal, push_decimal, push_text, signed_decimal};

verus! {

/// The text of a type.
pub open spec fn type_text(t: Type) -> Seq<char>
    decreases t, 0int,
{
    match t {
        Type::Int(n) => "int<"@ + decimal(n as nat) + ">"@,
        Type::UInt(n) => "uint<"@ + decimal(n as nat) + ">"@,
        Type::Bool => "bool"@,
        Type::Clock => "clock"@,
        Type::Tuple(ts) => "("@ + types_text(ts@, ts@.len() as int) + ")"@,
        Type::Array { inner, length } => "["@ + type_text(*inner) + "; "@ + decimal(length as nat) + "]"@,
        Type::Memory { inner, length } => "Memory["@ + type_text(*inner) + "; "@ + decimal(length as nat) + "]"@,
        Type::Enum(vs) => "enum"@ + variants_text(vs@, vs@.len() as int),
        Type::Backward(inner) => "~"@ + type_text(*inner),
    }
}

/// The first `n` types of a list, separated by commas.
pub open spec fn types_text(ts: Seq<Type>, n: int) -> Seq<char>
    decreases ts, n,
{
    if n <= 0 || n > ts.len() {
        Seq::empty()
    } else if n == 1 {
        type_text(ts[0])
    } else {
        types_text(ts, n - 1) + ", "@ + type_text(ts[n - 1])
    }
}

/// The first `n` variants of an enum type, each in parentheses after a space.
pub open spec fn variants_text(vs: Seq<Vec<Type>>, n: int) -> Seq<char>
    decreases vs, n,
{
    if n <= 0 || n > vs.len() {
        Seq::empty()
    } else {
        variants_text(vs, n - 1) + " ("@ + types_text(vs[n - 1]@, vs[n - 1]@.len() as int) + ")"@
    }
}

/// The first `n` value names of a list, separated by commas.
pub open spec fn names_text(vs: Seq<ValueName>, n: int) -> Seq<char>
    decreases n,
{
    if n <= 0 || n > vs.len() {
        Seq::empty()
    } else if n == 1 {
        vs[0].text()
    } else {
        names_text(vs, n - 1) + ", "@ + vs[n - 1].text()
    }
}

/// The first `n` segments of a unit's path, separated by `::`.
pub open spec fn path_text(p: Seq<String>, n: int) -> Seq<char>
    decreases n,
{
    if n <= 0 || n > p.len() {
        Seq::empty()
    } else if n == 1 {
        p[0]@
    } else {
        path_text(p, n - 1) + "::"@ + p[n - 1]@
    }
}

/// The text of an operator.
pub open spec fn operator_text(op: Operator) -> Seq<char>
    decreases op, 0int,
{
    match op {
        Operator::Add => "Add"@,
        Operator::Sub => "Sub"@,
        Operator::Mul => "Mul"@,
        Operator::Eq => "Eq"@,
        Operator::NotEq => "NotEq"@,
        Operator::Gt => "Gt"@,
        Operator::Lt => "Lt"@,
        Operator::Ge => "Ge"@,
        Operator::Le => "Le"@,
        Operator::RightShift => "RightShift"@,
        Operator::ArithmeticRightShift => "ArithmeticRightShift"@,
        Operator::LogicalAnd => "LogicalAnd"@,
        Operator::LogicalOr => "LogicalOr"@,
        Operator::LogicalXor => "LogicalXor"@,
        Operator::LogicalNot => "LogicalNot"@,
        Operator::BitwiseAnd => "BitwiseAnd"@,
        Operator::BitwiseOr => "BitwiseOr"@,
        Operator::BitwiseNot => "BitwiseNot"@,
        Operator::BitwiseXor => "BitwiseXor"@,
        Operator::USub => "USub"@,
        Operator::Not => "Not"@,
        Operator::Select => "Select"@,
        Operator::Match => "Match"@,
        Operator::LeftShift => "LeftShift"@,
        Operator::DivPow2 => "DivPow2"@,
        Operator::Truncate => "Truncate"@,
        Operator::Concat => "Concat"@,
        Operator::ConstructTuple => "ConstructTuple"@,
        Operator::ConstructArray => "ConstructArray"@,
        Operator::IndexArray => "IndexArray"@,
        Operator::IndexMemory => "IndexMemory"@,
        Operator::Alias => "Alias"@,
        Operator::FlipPort => "FlipPort"@,
        Operator::Nop => "Nop"@,
        Operator::ReadPort => "ReadPort"@,
        Operator::SignExtend { extra_bits, operand_size } =>
            "SignExtend("@ + decimal(extra_bits as nat) + ", "@ + decimal(operand_size as nat) + ")"@,
        Operator::ZeroExtend { extra_bits } => "ZeroExtend("@ + decimal(extra_bits as nat) + ")"@,
        Operator::ConstructEnum { variant, variant_count } =>
            "ConstructEnum("@ + decimal(variant as nat) + ", "@ + decimal(variant_count as nat) + ")"@,
        Operator::IsEnumVariant { variant, .. } => "IsEnumVariant("@ + decimal(variant as nat) + ")"@,
        Operator::EnumMember { variant, member_index, .. } =>
            "EnumMember("@ + decimal(variant as nat) + " "@ + decimal(member_index as nat) + ")"@,
        Operator::IndexTuple(idx, _) => "IndexTuple("@ + decimal(idx as nat) + ")"@,
        Operator::Instance(name, _) => "Instance("@ + path_text(name@, name@.len() as int) + ")"@,
        Operator::DeclClockedMemory { write_ports, addr_w, inner_w, elems, initial } =>
            "DeclClockedMemory("@ + decimal(write_ports as nat) + ", "@ + decimal(addr_w as nat) + ", "@
                + decimal(inner_w as nat) + ", "@ + decimal(elems as nat) + match initial {
                Some(values) => ", ["@ + value_lists_text(values@, values@.len() as int) + "]"@,
                None => Seq::empty(),
            } + ")"@,
    }
}

/// The first `n` initial values of a memory, each a bracketed list of statements,
/// separated by commas.
pub open spec fn value_lists_text(vs: Seq<Vec<Statement>>, n: int) -> Seq<char>
    decreases vs, n,
{
    if n <= 0 || n > vs.len() {
        Seq::empty()
    } else {
        let item = "["@ + statements_text(vs[n - 1]@, vs[n - 1]@.len() as int) + "]"@;
        if n == 1 {
            item
        } else {
            value_lists_text(vs, n - 1) + ", "@ + item
        }
    }
}

/// The first `n` statements of a list, separated by commas.
pub open spec fn statements_text(ss: Seq<Statement>, n: int) -> Seq<char>
    decreases ss, n,
{
    if n <= 0 || n > ss.len() {
        Seq::empty()
    } else if n == 1 {
        statement_text(ss[0])
    } else {
        statements_text(ss, n - 1) + ", "@ + statement_text(ss[n - 1])
    }
}

/// The text of a statement.
pub open spec fn statement_text(s: Statement) -> Seq<char>
    decreases s, 0int,
{
    match s {
        Statement::Binding(b) => "let "@ + b.name.text() + ": "@ + type_text(b.ty) + " = "@
            + operator_text(b.operator) + "("@ + names_text(b.operands@, b.operands@.len() as int) + ")"@,
        Statement::Register(r) => "reg("@ + r.clock.text() + ") "@ + r.name.text() + ": "@ + type_text(r.ty)
            + match r.reset {
                Some((trigger, value)) => "("@ + trigger.text() + ", "@ + value.text() + ")"@,
                None => Seq::empty(),
            } + " = "@ + r.value.text(),
        Statement::Constant(id, ty, value) => "const e"@ + decimal(id as nat) + ": "@ + type_text(ty) + " = "@
            + value.text(),
        Statement::Assert(v) => "assert "@ + v.inner.text(),
        Statement::Assign { target, value } => "set "@ + target.inner.text() + " = "@ + value.inner.text(),
        Statement::WalTrace { name, val, suffix, .. } => "wal_trace("@ + name.text() + ", "@ + val.text() + ", "@
            + suffix@ + ")"@,
    }
}

fn push_type(s: &mut String, t: &Type)
    ensures
        final(s)@ == old(s)@ + type_text(*t),
    decreases *t, 0int,
{
    let ghost start = s@;
    match t {
        Type::Int(n) => {
            push_text(s, "int<");
            push_decimal(s, *n);
            push_text(s, ">");
        },
        Type::UInt(n) => {
            push_text(s, "uint<");
            push_decimal(s, *n);
            push_text(s, ">");
        },
        Type::Bool => push_text(s, "bool"),
        Type::Clock => push_text(s, "clock"),
        Type::Tuple(ts) => {
            push_text(s, "(");
            push_types(s, ts);
            push_text(s, ")");
        },
        Type::Array { inner, length } => {
            push_text(s, "[");
            push_type(s, inner);
            push_text(s, "; ");
            push_decimal(s, *length);
            push_text(s, "]");
        },
        Type::Memory { inner, length } => {
            push_text(s, "Memory[");
            push_type(s, inner);
            push_text(s, "; ");
            push_decimal(s, *length);
            push_text(s, "]");
        },
        Type::Enum(vs) => {
            push_text(s, "enum");
            push_variants(s, vs);
        },
        Type::Backward(inner) => {
            push_text(s, "~");
            push_type(s, inner);
        },
    }
    assert(s@ =~= start + type_text(*t));
}

fn push_types(s: &mut String, ts: &Vec<Type>)
    ensures
        final(s)@ == old(s)@ + types_text(ts@, ts@.len() as int),
    decreases ts@, ts@.len() + 1int,
{
    let mut i: usize = 0;
    assert(old(s)@ + types_text(ts@, 0) =~= old(s)@);
    while i < ts.len()
        invariant
            0 <= i <= ts@.len(),
            s@ == old(s)@ + types_text(ts@, i as int),
        decreases ts@.len() - i,
    {
        let ghost before = s@;
        if i > 0 {
            push_text(s, ", ");
        }
        proof { assert(decreases_to!(ts@ => ts@[i as int])); }
        push_type(s, &ts[i]);
        assert(s@ =~= old(s)@ + types_text(ts@, i + 1));
        i += 1;
    }
}

fn push_variants(s: &mut String, vs: &Vec<Vec<Type>>)
    ensures
        final(s)@ == old(s)@ + variants_text(vs@, vs@.len() as int),
    decreases vs@, vs@.len() + 1int,
{
    let mut i: usize = 0;
    assert(old(s)@ + variants_text(vs@, 0) =~= old(s)@);
    while i < vs.len()
        invariant
            0 <= i <= vs@.len(),
            s@ == old(s)@ + variants_text(vs@, i as int),
        decreases vs@.len() - i,
    {
        push_text(s, " (");
        proof { assert(decreases_to!(vs@ => vs@[i as int]@)); }
        push_types(s, &vs[i]);
        push_text(s, ")");
        assert(s@ =~= old(s)@ + variants_text(vs@, i + 1));
        i += 1;
    }
}

fn push_names(s: &mut String, vs: &Vec<ValueName>)
    ensures
        final(s)@ == old(s)@ + names_text(vs@, vs@.len() as int),
{
    let mut i: usize = 0;
    assert(old(s)@ + names_text(vs@, 0) =~= old(s)@);
    while i < vs.len()
        invariant
            0 <= i <= vs@.len(),
            s@ == old(s)@ + names_text(vs@, i as int),
        decreases vs@.len() - i,
    {
        if i > 0 {
            push_text(s, ", ");
        }
        let t = vs[i].to_string();
        push_text(s, t.as_str());
        assert(s@ =~= old(s)@ + names_text(vs@, i + 1));
        i += 1;
    }
}

fn push_path(s: &mut String, p: &Vec<String>)
    ensures
        final(s)@ == old(s)@ + path_text(p@, p@.len() as int),
{
    let mut i: usize = 0;
    assert(old(s)@ + path_text(p@, 0) =~= old(s)@);
    while i < p.len()
        invariant
            0 <= i <= p@.len(),
            s@ == old(s)@ + path_text(p@, i as int),
        decreases p@.len() - i,
    {
        if i > 0 {
            push_text(s, "::");
        }
        push_text(s, p[i].as_str());
        assert(s@ =~= old(s)@ + path_text(p@, i + 1));
        i += 1;
    }
}

/// Whether an operator renders as its name alone.
pub open spec fn is_plain(op: Operator) -> bool {
    !(op is SignExtend || op is ZeroExtend || op is ConstructEnum || op is IsEnumVariant || op is EnumMember
        || op is IndexTuple || op is Instance || op is DeclClockedMemory)
}

fn push_plain_operator(s: &mut String, op: &Operator)
    requires
        is_plain(*op),
    ensures
        final(s)@ == old(s)@ + operator_text(*op),
{
    match op {
        Operator::Add => push_text(s, "Add"),
        Operator::Sub => push_text(s, "Sub"),
        Operator::Mul => push_text(s, "Mul"),
        Operator::Eq => push_text(s, "Eq"),
        Operator::NotEq => push_text(s, "NotEq"),
        Operator::Gt => push_text(s, "Gt"),
        Operator::Lt => push_text(s, "Lt"),
        Operator::Ge => push_text(s, "Ge"),
        Operator::Le => push_text(s, "Le"),
        Operator::RightShift => push_text(s, "RightShift"),
        Operator::ArithmeticRightShift => push_text(s, "ArithmeticRightShift"),
        Operator::LogicalAnd => push_text(s, "LogicalAnd"),
        Operator::LogicalOr => push_text(s, "LogicalOr"),
        Operator::LogicalXor => push_text(s, "LogicalXor"),
        Operator::LogicalNot => push_text(s, "LogicalNot"),
        Operator::BitwiseAnd => push_text(s, "BitwiseAnd"),
        Operator::BitwiseOr => push_text(s, "BitwiseOr"),
        Operator::BitwiseNot => push_text(s, "BitwiseNot"),
        Operator::BitwiseXor => push_text(s, "BitwiseXor"),
        Operator::USub => push_text(s, "USub"),
        Operator::Not => push_text(s, "Not"),
        Operator::Select => push_text(s, "Select"),
        Operator::Match => push_text(s, "Match"),
        Operator::LeftShift => push_text(s, "LeftShift"),
        Operator::DivPow2 => push_text(s, "DivPow2"),
        Operator::Truncate => push_text(s, "Truncate"),
        Operator::Concat => push_text(s, "Concat"),
        Operator::ConstructTuple => push_text(s, "ConstructTuple"),
        Operator::ConstructArray => push_text(s, "ConstructArray"),
        Operator::IndexArray => push_text(s, "IndexArray"),
        Operator::IndexMemory => push_text(s, "IndexMemory"),
        Operator::Alias => push_text(s, "Alias"),
        Operator::FlipPort => push_text(s, "FlipPort"),
        Operator::Nop => push_text(s, "Nop"),
        Operator::ReadPort => push_text(s, "ReadPort"),
        _ => {},
    }
}

fn push_operator_with_fields(s: &mut String, op: &Operator)
    requires
        !is_plain(*op),
        !(op is DeclClockedMemory),
    ensures
        final(s)@ == old(s)@ + operator_text(*op),
{
    let ghost start = s@;
    match op {
        Operator::SignExtend { extra_bits, operand_size } => {
            push_text(s, "SignExtend(");
            push_decimal(s, *extra_bits);
            push_text(s, ", ");
            push_decimal(s, *operand_size);
            push_text(s, ")");
        },
        Operator::ZeroExtend { extra_bits } => {
            push_text(s, "ZeroExtend(");
            push_decimal(s, *extra_bits);
            push_text(s, ")");
        },
        Operator::ConstructEnum { variant, variant_count } => {
            push_text(s, "ConstructEnum(");
            push_decimal(s, *variant as u128);
            push_text(s, ", ");
            push_decimal(s, *variant_count as u128);
            push_text(s, ")");
        },
        Operator::IsEnumVariant { variant, .. } => {
            push_text(s, "IsEnumVariant(");
            push_decimal(s, *variant as u128);
            push_text(s, ")");
        },
        Operator::EnumMember { variant, member_index, .. } => {
            push_text(s, "EnumMember(");
            push_decimal(s, *variant as u128);
            push_text(s, " ");
            push_decimal(s, *member_index as u128);
            push_text(s, ")");
        },
        Operator::IndexTuple(idx, _) => {
            push_text(s, "IndexTuple(");
            push_decimal(s, *idx as u128);
            push_text(s, ")");
        },
        Operator::Instance(name, _) => {
            push_text(s, "Instance(");
            push_path(s, name);
            push_text(s, ")");
        },
        _ => {},
    }
    assert(s@ =~= start + operator_text(*op));
}

#[verifier::rlimit(60)]
fn push_memory(s: &mut String, op: &Operator)
    requires
        op is DeclClockedMemory,
    ensures
        final(s)@ == old(s)@ + operator_text(*op),
    decreases *op, 0int,
{
    let ghost start = s@;
    match op {
        Operator::DeclClockedMemory { write_ports, addr_w, inner_w, elems, initial } => {
            push_text(s, "DeclClockedMemory(");
            push_decimal(s, *write_ports);
            push_text(s, ", ");
            push_decimal(s, *addr_w);
            push_text(s, ", ");
            push_decimal(s, *inner_w);
            push_text(s, ", ");
            push_decimal(s, *elems);
            match initial {
                Some(values) => {
                    push_text(s, ", [");
                    push_value_lists(s, values);
                    push_text(s, "]");
                },
                None => {},
            }
            push_text(s, ")");
        },
        _ => {},
    }
    assert(s@ =~= start + operator_text(*op));
}

fn push_operator(s: &mut String, op: &Operator)
    ensures
        final(s)@ == old(s)@ + operator_text(*op),
    decreases *op, 1int,
{
    if matches!(op, Operator::DeclClockedMemory { .. }) {
        push_memory(s, op);
    } else if is_plain_operator(op) {
        push_plain_operator(s, op);
    } else {
        push_operator_with_fields(s, op);
    }
}

fn is_plain_operator(op: &Operator) -> (r: bool)
    ensures
        r == is_plain(*op),
{
    match op {
        Operator::SignExtend { .. } | Operator::ZeroExtend { .. } | Operator::ConstructEnum { .. }
        | Operator::IsEnumVariant { .. } | Operator::EnumMember { .. } | Operator::IndexTuple(..)
        | Operator::Instance(..) | Operator::DeclClockedMemory { .. } => false,
        _ => true,
    }
}

fn push_value_lists(s: &mut String, vs: &Vec<Vec<Statement>>)
    ensures
        final(s)@ == old(s)@ + value_lists_text(vs@, vs@.len() as int),
    decreases vs@, vs@.len() + 1int,
{
    let mut i: usize = 0;
    assert(old(s)@ + value_lists_text(vs@, 0) =~= old(s)@);
    while i < vs.len()
        invariant
            0 <= i <= vs@.len(),
            s@ == old(s)@ + value_lists_text(vs@, i as int),
        decreases vs@.len() - i,
    {
        if i > 0 {
            push_text(s, ", ");
        }
        push_text(s, "[");
        proof { assert(decreases_to!(vs@ => vs@[i as int]@)); }
        push_statements(s, &vs[i]);
        push_text(s, "]");
        assert(s@ =~= old(s)@ + value_lists_text(vs@, i + 1));
        i += 1;
    }
}

fn push_statements(s: &mut String, ss: &Vec<Statement>)
    ensures
        final(s)@ == old(s)@ + statements_text(ss@, ss@.len() as int),
    decreases ss@, ss@.len() + 1int,
{
    let mut i: usize = 0;
    assert(old(s)@ + statements_text(ss@, 0) =~= old(s)@);
    while i < ss.len()
        invariant
            0 <= i <= ss@.len(),
            s@ == old(s)@ + statements_text(ss@, i as int),
        decreases ss@.len() - i,
    {
        if i > 0 {
            push_text(s, ", ");
        }
        proof { assert(decreases_to!(ss@ => ss@[i as int])); }
        push_statement(s, &ss[i]);
        assert(s@ =~= old(s)@ + statements_text(ss@, i + 1));
        i += 1;
    }
}

fn push_value_name(s: &mut String, v: &ValueName)
    ensures
        final(s)@ == old(s)@ + v.text(),
{
    let t = v.to_string();
    push_text(s, t.as_str());
}

fn push_binding(s: &mut String, b: &Binding)
    ensures
        final(s)@ == old(s)@ + statement_text(Statement::Binding(*b)),
    decreases *b, 0int,
{
    let ghost start = s@;
    push_text(s, "let ");
    push_value_name(s, &b.name);
    push_text(s, ": ");
    push_type(s, &b.ty);
    push_text(s, " = ");
    push_operator(s, &b.operator);
    push_text(s, "(");
    push_names(s, &b.operands);
    push_text(s, ")");
    assert(s@ =~= start + statement_text(Statement::Binding(*b)));
}

fn push_register(s: &mut String, r: &Register)
    ensures
        final(s)@ == old(s)@ + statement_text(Statement::Register(*r)),
{
    let ghost start = s@;
    push_text(s, "reg(");
    push_value_name(s, &r.clock);
    push_text(s, ") ");
    push_value_name(s, &r.name);
    push_text(s, ": ");
    push_type(s, &r.ty);
    match &r.reset {
        Some((trigger, value)) => {
            push_text(s, "(");
            push_value_name(s, trigger);
            push_text(s, ", ");
            push_value_name(s, value);
            push_text(s, ")");
        },
        None => {},
    }
    push_text(s, " = ");
    push_value_name(s, &r.value);
    assert(s@ =~= start + statement_text(Statement::Register(*r)));
}

fn push_other_statement(s: &mut String, st: &Statement)
    requires
        !(st is Binding),
        !(st is Register),
    ensures
        final(s)@ == old(s)@ + statement_text(*st),
{
    let ghost start = s@;
    match st {
        Statement::Constant(id, ty, value) => {
            push_text(s, "const e");
            push_decimal(s, *id as u128);
            push_text(s, ": ");
            push_type(s, ty);
            push_text(s, " = ");
            let t = value.to_string();
            push_text(s, t.as_str());
        },
        Statement::Assert(v) => {
            push_text(s, "assert ");
            push_value_name(s, &v.inner);
        },
        Statement::Assign { target, value } => {
            push_text(s, "set ");
            push_value_name(s, &target.inner);
            push_text(s, " = ");
            push_value_name(s, &value.inner);
        },
        Statement::WalTrace { name, val, suffix, .. } => {
            push_text(s, "wal_trace(");
            push_value_name(s, name);
            push_text(s, ", ");
            push_value_name(s, val);
            push_text(s, ", ");
            push_text(s, suffix.as_str());
            push_text(s, ")");
        },
        _ => {},
    }
    assert(s@ =~= start + statement_text(*st));
}

fn push_statement(s: &mut String, st: &Statement)
    ensures
        final(s)@ == old(s)@ + statement_text(*st),
    decreases *st, 1int,
{
    match st {
        Statement::Binding(b) => push_binding(s, b),
        Statement::Register(r) => push_register(s, r),
        _ => push_other_statement(s, st),
    }
}

impl Type {
    /// The type as it is written.
    pub fn to_string(&self) -> (r: String)
        ensures
            r@ == type_text(*self),
    {
        let mut s = String::new();
        push_type(&mut s, self);
        s
    }
}

impl Operator {
    /// The operator as it is written.
    pub fn to_string(&self) -> (r: String)
        ensures
            r@ == operator_text(*self),
    {
        let mut s = String::new();
        push_operator(&mut s, self);
        s
    }
}

impl Binding {
    /// `let name: type = operator(operands)`
    pub fn to_string(&self) -> (r: String)
        ensures
            r@ == statement_text(Statement::Binding(*self)),
    {
        let mut s = String::new();
        push_binding(&mut s, self);
        s
    }
}

impl Register {
    /// `reg(clock) name: type(trigger, reset value) = value`
    pub fn to_string(&self) -> (r: String)
        ensures
            r@ == statement_text(Statement::Register(*self)),
    {
        let mut s = String::new();
        push_register(&mut s, self);
        s
    }
}

impl Statement {
    pub fn to_string(&self) -> (r: String)
        ensures
            r@ == statement_text(*self),
    {
        let mut s = String::new();
        push_statement(&mut s, self);
        s
    }
}

/// The text of the first `n` inputs of an entity, separated by commas.
pub open spec fn inputs_text(inputs: Seq<MirInput>, n: int) -> Seq<char>
    decreases n,
{
    if n <= 0 || n > inputs.len() {
        Seq::empty()
    } else {
        let i = inputs[n - 1];
        let item = "("@ + (if i.no_mangle is Some { "#[no_mangle]"@ } else { Seq::empty() }) + i.name@ + ", "@
            + i.val_name.text() + ", "@ + type_text(i.ty) + ")"@;
        if n == 1 {
            item
        } else {
            inputs_text(inputs, n - 1) + ", "@ + item
        }
    }
}

/// The first `n` statements of an entity body, each on a line of its own after a tab.
pub open spec fn body_text(ss: Seq<Statement>, n: int) -> Seq<char>
    decreases n,
{
    if n <= 0 || n > ss.len() {
        Seq::empty()
    } else {
        body_text(ss, n - 1) + "\t"@ + statement_text(ss[n - 1]) + "\n"@
    }
}

impl Entity {
    pub open spec fn text(&self) -> Seq<char> {
        "entity "@ + path_text(self.name@, self.name@.len() as int) + "("@
            + inputs_text(self.inputs@, self.inputs@.len() as int) + ") -> "@ + type_text(self.output_type)
            + " {\n"@ + body_text(self.statements@, self.statements@.len() as int) + "} => "@
            + self.output.text()
    }

    /// The entity as it is written: its head, one statement per line, and its output.
    pub fn to_string(&self) -> (r: String)
        ensures
            r@ == self.text(),
    {
        let mut s = String::new();
        push_text(&mut s, "entity ");
        push_path(&mut s, &self.name);
        push_text(&mut s, "(");
        let ghost head = s@;
        let mut i: usize = 0;
        assert(head + inputs_text(self.inputs@, 0) =~= head);
        while i < self.inputs.len()
            invariant
                0 <= i <= self.inputs@.len(),
                s@ == head + inputs_text(self.inputs@, i as int),
            decreases self.inputs@.len() - i,
        {
            let input = &self.inputs[i];
            if i > 0 {
                push_text(&mut s, ", ");
            }
            push_text(&mut s, "(");
            if input.no_mangle.is_some() {
                push_text(&mut s, "#[no_mangle]");
            }
            push_text(&mut s, input.name.as_str());
            push_text(&mut s, ", ");
            push_value_name(&mut s, &input.val_name);
            push_text(&mut s, ", ");
            push_type(&mut s, &input.ty);
            push_text(&mut s, ")");
            assert(s@ =~= head + inputs_text(self.inputs@, i + 1));
            i += 1;
        }
        push_text(&mut s, ") -> ");
        push_type(&mut s, &self.output_type);
        push_text(&mut s, " {\n");
        let ghost mid = s@;
        let mut k: usize = 0;
        assert(mid + body_text(self.statements@, 0) =~= mid);
        while k < self.statements.len()
            invariant
                0 <= k <= self.statements@.len(),
                s@ == mid + body_text(self.statements@, k as int),
            decreases self.statements@.len() - k,
        {
            push_text(&mut s, "\t");
            push_statement(&mut s, &self.statements[k]);
            push_text(&mut s, "\n");
            assert(s@ =~= mid + body_text(self.statements@, k + 1));
            k += 1;
        }
        push_text(&mut s, "} => ");
        push_value_name(&mut s, &self.output);
        assert(s@ =~= self.text());
        s
    }
}

} // verus!
