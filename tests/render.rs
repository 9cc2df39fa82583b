use spade::location::{Loc, Span};
use spade::mir::{Binding, ConstantValue, Entity, MirInput, Operator, Register, Statement, Type, ValueName};

fn named(id: u64, name: &str) -> ValueName {
    ValueName::_test_named(id, name.to_string())
}

#[test]
fn types_render_as_text() {
    assert_eq!(Type::Int(8).to_string(), "int<8>");
    assert_eq!(Type::Tuple(vec![Type::Bool, Type::UInt(3)]).to_string(), "(bool, uint<3>)");
    assert_eq!(Type::Array { inner: Box::new(Type::Clock), length: 4 }.to_string(), "[clock; 4]");
    assert_eq!(Type::Enum(vec![vec![], vec![Type::Bool]]).to_string(), "enum () (bool)");
    assert_eq!(Type::Backward(Box::new(Type::Bool)).to_string(), "~bool");
}

#[test]
fn operators_render_as_text() {
    assert_eq!(Operator::Select.to_string(), "Select");
    assert_eq!(Operator::SignExtend { extra_bits: 3, operand_size: 8 }.to_string(), "SignExtend(3, 8)");
    assert_eq!(Operator::EnumMember { enum_type: Type::Bool, variant: 1, member_index: 2 }.to_string(), "EnumMember(1 2)");
    assert_eq!(Operator::Instance(vec!["lib".to_string(), "sub".to_string()], None).to_string(), "Instance(lib::sub)");
    let memory = Operator::DeclClockedMemory {
        write_ports: 1,
        addr_w: 2,
        inner_w: 8,
        elems: 4,
        initial: Some(vec![vec![Statement::Constant(1, Type::Int(8), ConstantValue::Int(5))], vec![]]),
    };
    assert_eq!(memory.to_string(), "DeclClockedMemory(1, 2, 8, 4, [[const e1: int<8> = 5], []])");
}

#[test]
fn statements_render_as_text() {
    let b = Binding {
        name: ValueName::Expr(5),
        operator: Operator::LogicalAnd,
        operands: vec![named(3, "x"), ValueName::Expr(4)],
        ty: Type::Bool,
        loc: None,
    };
    assert_eq!(b.to_string(), "let e5: bool = LogicalAnd(x_n3, e4)");
    let r = Register {
        name: ValueName::Expr(6),
        ty: Type::Bool,
        clock: named(0, "clk"),
        reset: Some((named(2, "rst"), ValueName::Expr(1))),
        value: ValueName::Expr(5),
        loc: None,
        traced: None,
    };
    assert_eq!(r.to_string(), "reg(clk) e6: bool(rst_n2, e1) = e5");
    let at = Span { file_id: 0, start: 0, end: 0 };
    assert_eq!(Statement::Assert(Loc::new(ValueName::Expr(2), at)).to_string(), "assert e2");
    assert_eq!(Statement::Binding(b).to_string(), "let e5: bool = LogicalAnd(x_n3, e4)");
}

#[test]
fn entities_render_as_text() {
    let e = Entity {
        name: vec!["top".to_string()],
        inputs: vec![MirInput { name: "a".to_string(), val_name: named(1, "a"), ty: Type::Bool, no_mangle: None }],
        output: ValueName::Expr(3),
        output_type: Type::Bool,
        statements: vec![Statement::Constant(3, Type::Bool, ConstantValue::Bool(true))],
    };
    assert_eq!(e.to_string(), "entity top((a, a_n1, bool)) -> bool {\n\tconst e3: bool = true\n} => e3");
}
