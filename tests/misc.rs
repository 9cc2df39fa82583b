use spade::ast;
use spade::constraints::{ConstraintExpr, InnerTypeVar, TypeConstraints};
use spade::hir::{EntityHead, FunctionLike, ParameterList, PipelineHead, TypeParam, TypeSpec};
use spade::lexer::TokenKind;
use spade::location::{Loc, Span};
use spade::mir::{ConstantValue, NameSource, ValueName, ValueNameSource};
use spade::name::{Identifier, NameID, Path};
use spade::parse_error::{CommaSeparatedError, Error, Token};
use spade::resolved;
use spade::unification::{FreeTypeVar, UnificationErrorExt, UnificationTrace};

fn token(kind: TokenKind) -> Token {
    Token { kind, span: Span { file_id: 0, start: 1, end: 2 }, file_id: 0 }
}

#[test]
fn constant_sums_and_negations_evaluate() {
    let sum = ConstraintExpr::Sum(Box::new(ConstraintExpr::Integer(3)), Box::new(ConstraintExpr::Integer(4)));
    assert!(matches!(sum.evaluate(), ConstraintExpr::Integer(7)));
    let neg = ConstraintExpr::Sub(Box::new(ConstraintExpr::Integer(5)));
    assert!(matches!(neg.evaluate(), ConstraintExpr::Integer(-5)));
    let open = ConstraintExpr::Sum(Box::new(ConstraintExpr::Var(InnerTypeVar(1))), Box::new(ConstraintExpr::Integer(4)));
    assert!(matches!(open.evaluate(), ConstraintExpr::Sum(_, _)));
    let overflow = ConstraintExpr::Sum(Box::new(ConstraintExpr::Integer(i128::MAX)), Box::new(ConstraintExpr::Integer(1)));
    assert!(matches!(overflow.evaluate(), ConstraintExpr::Sum(_, _)));
}

#[test]
fn settled_constraints_are_removed_and_returned() {
    let mut cs = TypeConstraints::new();
    let at = |s| Span { file_id: 0, start: s, end: s };
    cs.add_constraint(InnerTypeVar(1), Loc::new(ConstraintExpr::Sum(Box::new(ConstraintExpr::Integer(1)), Box::new(ConstraintExpr::Integer(2))), at(1)));
    cs.add_constraint(InnerTypeVar(2), Loc::new(ConstraintExpr::Var(InnerTypeVar(9)), at(2)));
    cs.add_constraint(InnerTypeVar(3), Loc::new(ConstraintExpr::Integer(8), at(3)));
    let known = cs.update_constraints();
    assert_eq!(known.len(), 2);
    assert_eq!(known[0].inner, (InnerTypeVar(1), 3));
    assert_eq!(known[0].span, at(1));
    assert_eq!(known[1].inner, (InnerTypeVar(3), 8));
    assert_eq!(cs.inner.len(), 1);
    assert_eq!(cs.inner[0].0, InnerTypeVar(2));
}

#[test]
fn unification_traces_report_their_outer_type() {
    let t = UnificationTrace::new(FreeTypeVar(8));
    assert_eq!(*t.outer(), FreeTypeVar(8));
    let failed: Result<(), (UnificationTrace, UnificationTrace)> = Err((t, UnificationTrace::new(FreeTypeVar(7))));
    let (l, r) = failed.add_context(&InnerTypeVar(80), &InnerTypeVar(70)).unwrap_err();
    assert_eq!(*l.outer(), FreeTypeVar(80));
    assert_eq!(l.failing, FreeTypeVar(8));
    assert_eq!(*r.outer(), FreeTypeVar(70));
    let fine: Result<u8, (UnificationTrace, UnificationTrace)> = Ok(1);
    assert_eq!(fine.add_context(&InnerTypeVar(1), &InnerTypeVar(2)).unwrap(), 1);
}

#[test]
fn paths_list_their_segments() {
    let p = ast::Path(vec![
        Loc::nowhere(ast::Identifier("a".to_string())),
        Loc::nowhere(ast::Identifier("b".to_string())),
    ]);
    assert_eq!(p.as_strs(), vec!["a", "b"]);
    assert_eq!(p.as_strings(), vec!["a".to_string(), "b".to_string()]);
    let r = resolved::Path::from_strs(&["x", "y"]);
    assert_eq!(r.0.len(), 2);
    assert_eq!(r.0[1].inner, resolved::Identifier::Named("y".to_string()));
}

#[test]
fn list_errors_name_the_tokens_that_could_follow() {
    let e = CommaSeparatedError::UnexpectedToken { got: token(TokenKind::Dot), end_token: TokenKind::CloseParen };
    match e.extra_expected(vec!["identifier"]) {
        Error::UnexpectedToken { got, expected, context } => {
            assert_eq!(got, token(TokenKind::Dot));
            assert_eq!(expected, vec!["identifier", ",", ")"]);
            assert!(context.is_none());
        }
        other => panic!("unexpected {:?}", other),
    }
    let e = CommaSeparatedError::UnexpectedToken { got: token(TokenKind::Dot), end_token: TokenKind::CloseBracket };
    assert!(matches!(e.no_context(), Error::UnexpectedToken { expected, .. } if expected == vec![",", "]"]));
    assert!(matches!(CommaSeparatedError::Inner(Error::Eof).no_context(), Error::Eof));
    let specified = Error::UnexpectedToken { got: token(TokenKind::Semi), expected: vec![], context: None }
        .specify_unexpected_token(|t| Error::ExpectedExpression { got: t });
    assert!(matches!(specified, Error::ExpectedExpression { got } if got.kind == TokenKind::Semi));
    assert!(matches!(Error::Eof.specify_unexpected_token(|t| Error::ExpectedItem { got: t }), Error::Eof));
}

#[test]
fn value_names_carry_their_provenance() {
    let n = NameID(4, Path(vec![Identifier("v".to_string())]));
    let named = ValueName::Named(4, "v".to_string(), ValueNameSource::Name(n));
    assert!(matches!(named.verilog_name_source_fwd(), NameSource::ForwardName(m) if m.0 == 4));
    assert!(matches!(named.verilog_name_source_back(), NameSource::BackwardName(m) if m.0 == 4));
    let anon = ValueName::Expr(9);
    assert!(matches!(anon.verilog_name_source_fwd(), NameSource::ForwardExpr(9)));
    assert!(matches!(ValueNameSource::from_value_name(&anon), ValueNameSource::Expr(9)));
    assert_eq!(ConstantValue::integer(-3), ConstantValue::Int(-3));
}

#[test]
fn parameters_are_found_by_name() {
    let params = ParameterList(vec![
        (Loc::nowhere(Identifier("a".to_string())), Loc::nowhere(TypeSpec::unit())),
        (Loc::nowhere(Identifier("b".to_string())), Loc::nowhere(TypeSpec::Tuple(vec![]))),
    ]);
    assert_eq!(params.argument_num(), 2);
    assert_eq!(params.arg_index(&Identifier("b".to_string())), Some(1));
    assert_eq!(params.arg_index(&Identifier("c".to_string())), None);
    assert!(matches!(params.arg_type(&Identifier("b".to_string())), TypeSpec::Tuple(_)));
    assert!(params.try_get_arg_type(&Identifier("c".to_string())).is_none());
    let tp = TypeParam::Integer(Identifier("N".to_string()), NameID(12, Path(vec![])));
    assert_eq!(tp.name_id().0, 12);
}

#[test]
fn value_names_render_as_text() {
    assert_eq!(ValueName::Expr(12).to_string(), "e12");
    assert_eq!(ValueName::_test_named(0, "x".to_string()).to_string(), "x");
    assert_eq!(ValueName::_test_named(7, "x".to_string()).to_string(), "x_n7");
    assert!(matches!(ValueName::_test_named(7, "x".to_string()), ValueName::Named(7, _, ValueNameSource::Name(n)) if n.0 == 7));
}

#[test]
fn constants_and_paths_render_as_text() {
    assert_eq!(ConstantValue::Int(-170141183460469231731687303715884105728).to_string(), "-170141183460469231731687303715884105728");
    assert_eq!(ConstantValue::Int(205).to_string(), "205");
    assert_eq!(ConstantValue::Bool(false).to_string(), "false");
    let p = ast::Path(vec![
        Loc::nowhere(ast::Identifier("lib".to_string())),
        Loc::nowhere(ast::Identifier("x".to_string())),
    ]);
    assert_eq!(p.to_string(), "lib::x");
    assert_eq!(ast::Path(vec![]).to_string(), "");
}

#[test]
fn function_heads_share_their_shape() {
    let head = EntityHead {
        inputs: ParameterList(vec![(Loc::nowhere(Identifier("a".to_string())), Loc::nowhere(TypeSpec::unit()))]),
        output_type: None,
        type_params: vec![],
    };
    assert_eq!(head.inputs().argument_num(), 1);
    assert!(head.output_type().is_none());
    let pipe = PipelineHead {
        depth: Loc::nowhere(2),
        inputs: ParameterList(vec![]),
        output_type: Some(Loc::nowhere(TypeSpec::unit())),
        type_params: vec![],
    };
    assert!(pipe.output_type().is_some());
    assert_eq!(pipe.type_params().len(), 0);
}

#[test]
fn names_convert_into_provenance() {
    let source: ValueNameSource = NameID(9, Path(vec![Identifier("q".to_string())])).into();
    assert!(matches!(source, ValueNameSource::Name(n) if n.0 == 9));
}
