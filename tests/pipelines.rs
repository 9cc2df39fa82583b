use spade::error::{Error, InternalError};
use spade::hir::{
    BinaryOperator, Binding, Block, CallKind, ArgumentList, ExprKind, Expression, Pattern, PatternKind,
    Statement, TypeSpec,
};
use spade::location::{Loc, Span};
use spade::mir;
use spade::mir::{Operator, ValueName};
use spade::name::{Identifier, NameID, Path};
use spade::pipelines::{
    lower_pipeline, Context, MaybePipelineContext, PipelineContext, TypeInfo, TypeTable,
};
use spade::signals::IdTracker;
use spade::substitution::{Substitution, Substitutions};

fn span(start: usize) -> Span {
    Span { file_id: 1, start, end: start + 1 }
}

fn name(id: u64, text: &str) -> NameID {
    NameID(id, Path(vec![Identifier(text.to_string())]))
}

fn expr(kind: ExprKind, id: u64, at: usize) -> Loc<Expression> {
    Loc::new(kind.with_id(id), span(at))
}

fn ident(n: &NameID, id: u64, at: usize) -> Loc<Expression> {
    expr(ExprKind::Identifier(n.clone()), id, at)
}

fn bind(target: &NameID, value: Loc<Expression>) -> Loc<Statement> {
    Loc::new(
        Statement::Binding(Binding {
            pattern: Loc::new(PatternKind::name(Loc::nowhere(target.clone())).idless(), span(0)),
            ty: None,
            value,
            wal_trace: None,
        }),
        span(0),
    )
}

fn marker(cond: Option<Loc<Expression>>, at: usize) -> Loc<Statement> {
    Loc::new(Statement::PipelineRegMarker(cond), span(at))
}

fn block(statements: Vec<Loc<Statement>>, result: Option<Loc<Expression>>) -> Loc<Expression> {
    expr(ExprKind::Block(Box::new(Block { statements, result })), 999, 0)
}

fn input(n: &NameID) -> (Loc<NameID>, Loc<TypeSpec>) {
    (Loc::nowhere(n.clone()), Loc::nowhere(TypeSpec::unit()))
}

fn context(types: Vec<(u64, mir::Type, bool)>, first_id: u64) -> Context {
    Context {
        subs: Substitutions::new(),
        idtracker: IdTracker { next_id: first_id },
        types: TypeTable {
            entries: types
                .into_iter()
                .map(|(name, ty, is_port)| TypeInfo { name, ty, is_port })
                .collect(),
        },
        pipeline_context: MaybePipelineContext::NotPipeline,
    }
}

fn signals(ctx: &Context) -> &PipelineContext {
    match &ctx.pipeline_context {
        MaybePipelineContext::Pipeline(pc) => pc,
        MaybePipelineContext::NotPipeline => panic!("no pipeline context"),
    }
}

fn key(v: &ValueName) -> (bool, u64) {
    match v {
        ValueName::Named(id, _, _) => (true, *id),
        ValueName::Expr(id) => (false, *id),
    }
}

fn opt_key(v: &Option<ValueName>) -> Option<(bool, u64)> {
    v.as_ref().map(key)
}

fn state_of(ctx: &Context, id: u64) -> Option<&Substitution> {
    ctx.subs.vars.iter().find(|(n, _)| n.0 == id).map(|(_, s)| s)
}

/// `let y = x + 1; stage(guard); y`, with inputs clock, x and cond.
fn adder(guard: bool) -> (Vec<(Loc<NameID>, Loc<TypeSpec>)>, Loc<Expression>, Context) {
    let clk = name(1, "clk");
    let x = name(2, "x");
    let y = name(3, "y");
    let cond = name(4, "cond");
    let sum = expr(
        ExprKind::BinaryOperator(
            Box::new(ident(&x, 10, 10)),
            BinaryOperator::Add,
            Box::new(expr(ExprKind::IntLiteral(1), 11, 14)),
        ),
        12,
        10,
    );
    let body = block(
        vec![
            bind(&y, sum),
            marker(if guard { Some(ident(&cond, 13, 20)) } else { None }, 18),
        ],
        Some(ident(&y, 14, 30)),
    );
    let ctx = context(
        vec![
            (1, mir::Type::Clock, false),
            (2, mir::Type::UInt(8), false),
            (3, mir::Type::UInt(8), false),
            (4, mir::Type::Bool, false),
        ],
        100,
    );
    (vec![input(&clk), input(&x), input(&cond)], body, ctx)
}

#[test]
fn unguarded_stage_carries_the_live_variable() {
    let (inputs, body, mut ctx) = adder(false);
    let mut statements = vec![];
    let mut name_map = vec![];
    lower_pipeline(&inputs, &body, &mut statements, &mut ctx, &mut name_map).unwrap();

    // One register carries y across the boundary: x and cond are not used after it.
    assert_eq!(statements.len(), 1);
    match &statements[0] {
        mir::Statement::Register(reg) => {
            assert_eq!(key(&reg.name), (true, 100));
            assert_eq!(key(&reg.value), (true, 3));
            assert_eq!(key(&reg.clock), (true, 1));
            assert!(reg.reset.is_none());
            assert!(matches!(reg.ty, mir::Type::UInt(8)));
        }
        other => panic!("expected a register, got {:?}", other),
    }
    let pc = signals(&ctx);
    assert_eq!(pc.ready_signals.len(), 2);
    assert_eq!(pc.valid_signals.len(), 2);
    assert!(pc.ready_signals.iter().all(|s| s.is_none()));
    assert!(pc.valid_signals.iter().all(|s| s.is_none()));
    // The result y now denotes the register: the value delayed by one cycle.
    assert!(matches!(state_of(&ctx, 3), Some(Substitution::Available(n)) if n.0 == 100));
    assert_eq!(name_map.len(), 1);
    assert_eq!((name_map[0].0 .0, name_map[0].1 .0), (100, 3));
}

#[test]
fn guarded_stage_stalls_and_validates() {
    let (inputs, body, mut ctx) = adder(true);
    let mut statements = vec![];
    let mut name_map = vec![];
    lower_pipeline(&inputs, &body, &mut statements, &mut ctx, &mut name_map).unwrap();

    let pc = signals(&ctx);
    // The stage before the marker has an enable signal: an alias of cond.
    assert_eq!(opt_key(&pc.ready_signals[0]), Some((false, 100)));
    assert_eq!(opt_key(&pc.ready_signals[1]), None);
    let enable = statements
        .iter()
        .find_map(|s| match s {
            mir::Statement::Binding(b) if key(&b.name) == (false, 100) => Some(b),
            _ => None,
        })
        .expect("enable signal defined");
    assert!(matches!(enable.operator, Operator::Alias));
    assert_eq!(enable.operands.iter().map(key).collect::<Vec<_>>(), vec![(true, 4)]);

    // The register for y selects between the new value and its own.
    let reg = statements
        .iter()
        .find_map(|s| match s {
            mir::Statement::Register(r) if key(&r.name) == (true, 101) => Some(r),
            _ => None,
        })
        .expect("register for y");
    let mux = statements
        .iter()
        .find_map(|s| match s {
            mir::Statement::Binding(b) if key(&b.name) == key(&reg.value) => Some(b),
            _ => None,
        })
        .expect("enable mux");
    assert!(matches!(mux.operator, Operator::Select));
    assert_eq!(
        mux.operands.iter().map(key).collect::<Vec<_>>(),
        vec![(false, 100), (true, 3), (true, 101)]
    );

    // Stage 0 is always valid; stage 1 is valid when cond was, one cycle earlier.
    assert!(pc.valid_signals[0].is_none());
    let valid = pc.valid_signals[1].as_ref().expect("stage 1 has a valid signal");
    let valid_reg = statements
        .iter()
        .find_map(|s| match s {
            mir::Statement::Register(r) if key(&r.name) == key(valid) => Some(r),
            _ => None,
        })
        .expect("valid register");
    assert_eq!(key(&valid_reg.value), (true, 4));
    assert_eq!(key(&valid_reg.clock), (true, 1));
    assert_eq!(statements.len(), 4);
}

#[test]
fn pipeline_without_stages_is_combinational() {
    let clk = name(1, "clk");
    let x = name(2, "x");
    let y = name(3, "y");
    let body = block(vec![bind(&y, ident(&x, 10, 1))], Some(ident(&y, 11, 2)));
    let mut ctx = context(vec![(1, mir::Type::Clock, false), (2, mir::Type::Bool, false), (3, mir::Type::Bool, false)], 0);
    let mut statements = vec![];
    let mut name_map = vec![];
    lower_pipeline(&vec![input(&clk), input(&x)], &body, &mut statements, &mut ctx, &mut name_map).unwrap();
    let pc = signals(&ctx);
    assert_eq!(pc.ready_signals.len(), 1);
    assert_eq!(pc.valid_signals.len(), 1);
    assert!(pc.ready_signals[0].is_none());
    assert!(pc.valid_signals[0].is_none());
    assert!(statements.is_empty());
}

#[test]
fn one_register_per_live_variable_and_boundary() {
    // let a = x; stage; let b = a; stage; stage; a + b
    let clk = name(1, "clk");
    let x = name(2, "x");
    let a = name(3, "a");
    let b = name(4, "b");
    let sum = expr(
        ExprKind::BinaryOperator(Box::new(ident(&a, 20, 1)), BinaryOperator::Add, Box::new(ident(&b, 21, 2))),
        22,
        1,
    );
    let body = block(
        vec![
            bind(&a, ident(&x, 10, 1)),
            marker(None, 2),
            bind(&b, ident(&a, 11, 3)),
            marker(None, 4),
            marker(None, 5),
        ],
        Some(sum),
    );
    let mut ctx = context(
        vec![(1, mir::Type::Clock, false), (2, mir::Type::Int(4), false), (3, mir::Type::Int(4), false), (4, mir::Type::Int(4), false)],
        50,
    );
    let mut statements = vec![];
    let mut name_map = vec![];
    lower_pipeline(&vec![input(&clk), input(&x)], &body, &mut statements, &mut ctx, &mut name_map).unwrap();
    // a crosses three boundaries, b crosses two; x is dead after the first binding.
    let registers = statements.iter().filter(|s| matches!(s, mir::Statement::Register(_))).count();
    assert_eq!(registers, 5);
    assert_eq!(statements.len(), 5);
    let originals: Vec<u64> = name_map.iter().map(|(_, o)| o.0).collect();
    assert_eq!(originals, vec![3, 3, 4, 3, 4]);
    let pc = signals(&ctx);
    assert_eq!(pc.ready_signals.len(), 4);
    assert_eq!(pc.valid_signals.len(), 4);
}

#[test]
fn enable_chain_aliases_downstream_and_conjoins_guards() {
    // stage(g0); stage; stage(g2); stage  ->  enables: e0 = g0 && e1, e1 = e2, e2 = g2, none after.
    let clk = name(1, "clk");
    let g0 = name(2, "g0");
    let g2 = name(3, "g2");
    let body = block(
        vec![
            marker(Some(ident(&g0, 10, 1)), 1),
            marker(None, 2),
            marker(Some(ident(&g2, 11, 3)), 3),
            marker(None, 4),
        ],
        None,
    );
    let mut ctx = context(vec![(1, mir::Type::Clock, true), (2, mir::Type::Bool, true), (3, mir::Type::Bool, true)], 0);
    let mut statements = vec![];
    let mut name_map = vec![];
    lower_pipeline(&vec![input(&clk), input(&g0), input(&g2)], &body, &mut statements, &mut ctx, &mut name_map)
        .unwrap();
    let pc = signals(&ctx);
    let ready: Vec<_> = pc.ready_signals.iter().map(opt_key).collect();
    assert!(ready[0].is_some() && ready[1].is_some() && ready[2].is_some());
    assert!(ready[3].is_none() && ready[4].is_none());
    let def = |k: (bool, u64)| {
        statements
            .iter()
            .find_map(|s| match s {
                mir::Statement::Binding(b) if key(&b.name) == k => Some(b),
                _ => None,
            })
            .unwrap()
    };
    let e2 = def(ready[2].unwrap());
    assert!(matches!(e2.operator, Operator::Alias));
    assert_eq!(e2.operands.iter().map(key).collect::<Vec<_>>(), vec![(true, 3)]);
    let e1 = def(ready[1].unwrap());
    assert!(matches!(e1.operator, Operator::Alias));
    assert_eq!(e1.operands.iter().map(key).collect::<Vec<_>>(), vec![ready[2].unwrap()]);
    let e0 = def(ready[0].unwrap());
    assert!(matches!(e0.operator, Operator::LogicalAnd));
    assert_eq!(e0.operands.iter().map(key).collect::<Vec<_>>(), vec![(true, 2), ready[1].unwrap()]);
    let ands = statements
        .iter()
        .filter(|s| matches!(s, mir::Statement::Binding(b) if matches!(b.operator, Operator::LogicalAnd)))
        .count();
    // One conjunction for the enable chain and one for the validity of stage 3.
    assert_eq!(ands, 2);
    // Valid signals: none at stage 0, then registered at every later stage.
    assert!(pc.valid_signals[0].is_none());
    assert!(pc.valid_signals[1..].iter().all(|v| v.is_some()));
}

#[test]
fn missing_clock_is_an_internal_error() {
    let body = block(vec![], None);
    let mut ctx = context(vec![], 0);
    let r = lower_pipeline(&vec![], &body, &mut vec![], &mut ctx, &mut vec![]);
    assert!(matches!(r, Err(Error::Internal(InternalError::MissingClock))));
}

#[test]
fn body_must_be_a_block() {
    let clk = name(1, "clk");
    let body = expr(ExprKind::IntLiteral(3), 1, 0);
    let mut ctx = context(vec![(1, mir::Type::Clock, false)], 0);
    let r = lower_pipeline(&vec![input(&clk)], &body, &mut vec![], &mut ctx, &mut vec![]);
    assert!(matches!(r, Err(Error::Internal(InternalError::BodyNotBlock))));
}

#[test]
fn declarations_are_not_supported_in_pipelines() {
    let clk = name(1, "clk");
    let body = block(vec![Loc::new(Statement::Declaration(vec![]), span(7))], None);
    let mut ctx = context(vec![(1, mir::Type::Clock, false)], 0);
    let r = lower_pipeline(&vec![input(&clk)], &body, &mut vec![], &mut ctx, &mut vec![]);
    assert!(matches!(r, Err(Error::Internal(InternalError::DeclarationInPipeline(s))) if s == span(7)));
}

#[test]
fn unknown_types_are_reported() {
    let clk = name(1, "clk");
    let body = block(vec![], None);
    let mut ctx = context(vec![], 0);
    let r = lower_pipeline(&vec![input(&clk)], &body, &mut vec![], &mut ctx, &mut vec![]);
    assert!(matches!(r, Err(Error::Internal(InternalError::UnknownType(1)))));
}

#[test]
fn guard_used_before_it_exists_is_reported() {
    // let v = inst(2) sub(); stage(v)
    let clk = name(1, "clk");
    let v = name(2, "v");
    let call = expr(
        ExprKind::Call {
            kind: CallKind::Pipeline(span(3), Loc::new(2, span(4))),
            callee: Loc::nowhere(name(9, "sub")),
            args: Loc::nowhere(ArgumentList::Positional(vec![])),
        },
        10,
        3,
    );
    let body = block(vec![bind(&v, call), marker(Some(ident(&v, 11, 8)), 8)], None);
    let mut ctx = context(vec![(1, mir::Type::Clock, false), (2, mir::Type::Bool, false)], 0);
    let r = lower_pipeline(&vec![input(&clk)], &body, &mut vec![], &mut ctx, &mut vec![]);
    assert!(matches!(
        r,
        Err(Error::UseBeforeReady { name: 2, stages_left: 2, at }) if at == span(8)
    ));
}

#[test]
fn nested_pipeline_result_arrives_after_its_depth() {
    // let v = inst(2) sub(); stage; stage; v  -- v is never carried, it arrives in stage 2.
    let clk = name(1, "clk");
    let v = name(2, "v");
    let call = expr(
        ExprKind::Call {
            kind: CallKind::Pipeline(span(3), Loc::new(2, span(4))),
            callee: Loc::nowhere(name(9, "sub")),
            args: Loc::nowhere(ArgumentList::Positional(vec![])),
        },
        10,
        3,
    );
    let body = block(vec![bind(&v, call), marker(None, 5), marker(None, 6)], Some(ident(&v, 11, 7)));
    let mut ctx = context(vec![(1, mir::Type::Clock, false), (2, mir::Type::Bool, false)], 0);
    let mut statements = vec![];
    lower_pipeline(&vec![input(&clk)], &body, &mut statements, &mut ctx, &mut vec![]).unwrap();
    assert!(statements.is_empty());
    assert!(matches!(state_of(&ctx, 2), Some(Substitution::Available(n)) if n.0 == 2));
}

#[test]
fn availability_mismatch_stops_lowering() {
    let clk = name(1, "clk");
    let c = name(2, "c");
    let y = name(3, "y");
    let delayed = expr(
        ExprKind::Call {
            kind: CallKind::Pipeline(span(5), Loc::new(2, span(6))),
            callee: Loc::nowhere(name(9, "sub")),
            args: Loc::nowhere(ArgumentList::Positional(vec![])),
        },
        10,
        5,
    );
    let branch = expr(
        ExprKind::If(Box::new(ident(&c, 11, 1)), Box::new(expr(ExprKind::IntLiteral(0), 12, 3)), Box::new(delayed)),
        13,
        1,
    );
    let body = block(vec![bind(&y, branch)], None);
    let mut ctx = context(vec![(1, mir::Type::Clock, false), (2, mir::Type::Bool, false), (3, mir::Type::Bool, false)], 0);
    let r = lower_pipeline(&vec![input(&clk), input(&c)], &body, &mut vec![], &mut ctx, &mut vec![]);
    match r {
        Err(Error::AvailabilityMismatch { prev, new }) => {
            assert_eq!((prev.inner, prev.span), (0, span(3)));
            assert_eq!((new.inner, new.span), (2, span(5)));
        }
        other => panic!("expected a mismatch, got {:?}", other),
    }
}

#[test]
fn pipeline_context_outside_pipeline_is_a_diagnostic() {
    let mut outside = MaybePipelineContext::NotPipeline;
    assert!(matches!(outside.get(span(4)), Err(Error::MissingPipelineContext(s)) if s == span(4)));
    let mut inside = MaybePipelineContext::Pipeline(PipelineContext { ready_signals: vec![None], valid_signals: vec![None] });
    let pc = inside.get(span(4)).unwrap();
    pc.valid_signals.push(None);
    match inside {
        MaybePipelineContext::Pipeline(pc) => assert_eq!(pc.valid_signals.len(), 2),
        _ => panic!(),
    }
}

#[test]
fn patterns_bind_all_their_names() {
    let p = PatternKind::Tuple(vec![
        Loc::nowhere(PatternKind::name(Loc::nowhere(name(1, "a"))).idless()),
        Loc::nowhere(PatternKind::Integer(3).idless()),
        Loc::nowhere(
            PatternKind::Tuple(vec![Loc::nowhere(PatternKind::name(Loc::nowhere(name(2, "b"))).with_id(7))]).idless(),
        ),
    ])
    .with_id(4);
    let names: Vec<u64> = p.get_names().iter().map(|n| n.0).collect();
    assert_eq!(names, vec![1, 2]);
    let _unused: Pattern = PatternKind::Bool(true).idless();
}

#[test]
fn carrying_into_a_taken_name_is_an_internal_error() {
    let (inputs, body, mut ctx) = adder(false);
    let mut statements = vec![];
    let mut name_map = vec![(name(100, "taken"), name(5, "other"))];
    let r = lower_pipeline(&inputs, &body, &mut statements, &mut ctx, &mut name_map);
    assert!(matches!(r, Err(Error::Internal(InternalError::DuplicateCarry(100)))));
}

#[test]
fn exhausted_identifiers_are_an_internal_error() {
    let (inputs, body, mut ctx) = adder(false);
    ctx.idtracker.next_id = u64::MAX;
    let r = lower_pipeline(&inputs, &body, &mut vec![], &mut ctx, &mut vec![]);
    assert!(matches!(r, Err(Error::Internal(InternalError::IdentifiersExhausted))));
}
