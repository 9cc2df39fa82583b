use spade::availability::try_compute_availability;
use spade::error::{Error, InternalError};
use spade::hir::{ArgumentList, CallKind, ExprKind, Expression};
use spade::location::{Loc, Span};
use spade::name::{Identifier, NameID, Path};

fn span(start: usize) -> Span {
    Span { file_id: 0, start, end: start + 2 }
}

fn lit(v: u128, at: usize) -> Loc<Expression> {
    Loc::new(ExprKind::IntLiteral(v).idless(), span(at))
}

fn delayed(depth: u128, at: usize) -> Loc<Expression> {
    Loc::new(
        ExprKind::Call {
            kind: CallKind::Pipeline(span(at), Loc::new(depth, span(at))),
            callee: Loc::nowhere(NameID(5, Path(vec![Identifier("p".to_string())]))),
            args: Loc::nowhere(ArgumentList::Positional(vec![lit(1, at)])),
        }
        .idless(),
        span(at),
    )
}

#[test]
fn branches_at_different_offsets_are_a_mismatch() {
    let cond = Loc::new(ExprKind::BoolLiteral(true).idless(), span(0));
    let e = ExprKind::If(Box::new(cond), Box::new(lit(0, 10)), Box::new(delayed(2, 20)));
    match e.available_in() {
        Err(Error::AvailabilityMismatch { prev, new }) => {
            assert_eq!(prev.inner, 0);
            assert_eq!(prev.span, span(10));
            assert_eq!(new.inner, 2);
            assert_eq!(new.span, span(20));
        }
        other => panic!("expected a mismatch, got {:?}", other),
    }
}

#[test]
fn nested_pipeline_call_is_available_after_its_depth() {
    assert_eq!(delayed(3, 0).inner.kind.available_in().unwrap(), 3);
}

#[test]
fn list_availability_is_common_or_reports_first_disagreement() {
    assert_eq!(try_compute_availability(&vec![]).unwrap(), 0);
    assert_eq!(try_compute_availability(&vec![delayed(1, 0), delayed(1, 4)]).unwrap(), 1);
    match try_compute_availability(&vec![delayed(1, 0), delayed(1, 4), lit(2, 8), delayed(3, 12)]) {
        Err(Error::AvailabilityMismatch { prev, new }) => {
            assert_eq!((prev.inner, prev.span), (1, span(0)));
            assert_eq!((new.inner, new.span), (0, span(8)));
        }
        other => panic!("expected a mismatch, got {:?}", other),
    }
}

#[test]
fn unlowered_constructs_are_internal_errors() {
    let call = ExprKind::MethodCall {
        target: Box::new(lit(1, 0)),
        name: Loc::new(Identifier("m".to_string()), span(6)),
        args: Loc::nowhere(ArgumentList::Positional(vec![])),
    };
    assert!(matches!(call.available_in(), Err(Error::Internal(InternalError::MethodCallNotLowered(s))) if s == span(6)));
    assert!(matches!(ExprKind::Null.available_in(), Err(Error::Internal(InternalError::NullExpression))));
}

#[test]
fn compound_expressions_take_their_parts_offset() {
    let t = ExprKind::TupleLiteral(vec![delayed(2, 0), delayed(2, 3)]);
    assert_eq!(t.available_in().unwrap(), 2);
    let idx = ExprKind::TupleIndex(Box::new(Loc::new(t.idless(), span(0))), Loc::new(1, span(1)));
    assert_eq!(idx.available_in().unwrap(), 2);
    assert_eq!(ExprKind::StageReady.available_in().unwrap(), 0);
}

#[test]
fn condition_must_share_the_branches_offset() {
    let cond = delayed(2, 30);
    let e = ExprKind::If(Box::new(cond), Box::new(lit(0, 10)), Box::new(lit(1, 20)));
    match e.available_in() {
        Err(Error::AvailabilityMismatch { prev, new }) => {
            assert_eq!((prev.inner, prev.span), (0, span(10)));
            assert_eq!((new.inner, new.span), (2, span(30)));
        }
        other => panic!("expected a mismatch, got {:?}", other),
    }
    let agreeing = ExprKind::If(Box::new(delayed(2, 0)), Box::new(delayed(2, 4)), Box::new(delayed(2, 8)));
    assert_eq!(agreeing.available_in().unwrap(), 2);
}
