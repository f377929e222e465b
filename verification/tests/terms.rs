use compiler_frontend::checking::error::{ErrorCrumb, ErrorKind};
use compiler_frontend::checking::lowering::{SourceId, TermVariableResolution};
use compiler_frontend::checking::operator::{
    build_binder, build_expression, build_type, expected_constraint, has_operands, invalid_operator,
    operand_modes, operator_branch, operator_chain, operator_request, record_term_branch_types,
    record_type_branch_types, should_defer_expansion, BuiltType, OperatorKindMode, OperatorRequest,
    OperatorTree,
};
use compiler_frontend::checking::state::{CheckState, ExhaustivenessReport};
use compiler_frontend::checking::terms::application::{
    allocate_expression, analyse_applied_function, analyse_callable_head, begin_application,
    begin_infix_pair, bind_callable_forall, callable_forall_step,
    check_expression_term_application_step, check_expression_type_application_step,
    check_unanchored_application_step, instantiate_expression_step, invalid_application,
    materialize_application, resolve_pending, ArgumentRequest, CallableAnalysis, CallableHead,
    CallableStep, ElaboratedExpression, ExpressionArgument, ImplicitApplication, InfixPair, InstantiationStep,
    PendingImplicitApplication, TermApplicationStep, TypeApplicationStep, UnanchoredApplication,
    UnanchoredStep,
};
use compiler_frontend::checking::terms::equations::{
    bind_signature_abstractions, binder_request, check_equation_arity, check_equations_step,
    equation_signature, expected_guarded_type, infer_equations_step, inferred_equation_type,
    instantiate_pattern_arguments, minimum_equation_arity, missing_guarded_expression,
    required_arity, BinderRequest, CheckEquationStep, EquationProgress, EquationTypeOrigin,
    InferEquationStep, SkolemisedAbstraction, SourceEquation, ValueEquationSignature,
};
use compiler_frontend::checking::terms::form_ado::{
    ado_binders, ado_request, ado_step, begin_ado, empty_ado, finish_ado,
    infer_ado_application_core, pure_ado, AdoRequest,
};
use compiler_frontend::checking::terms::form_do::{
    apply_do_function, begin_do, continuation_origins, do_final_step, do_functions,
    do_lambda_type, do_request, do_step, finish_do, infer_do_bind_core, lookup_or_synthesise_bind,
    lookup_or_synthesise_discard, CheckedDoStep, DesugaredFunction, DoBlockFinalStep, DoRequest, DoStatement, ElaboratedBinder,
};
use compiler_frontend::checking::terms::forms::{
    case_of_core, check_lambda_step, if_then_else_core, infer_lambda,
    instantiate_trunk_types, CaseBranch, ExpressionMode, LambdaStep,
};
use compiler_frontend::checking::terms::guarded::{
    check_pattern_guard, pattern_guard_request, where_request, ElaboratedWhereExpression,
    GuardedExpressionMode, GuardedProgress, GuardedStep, PatternGuardRequest, SourceAlternative,
    SourcePatternGuard, WhereExpressionMode,
};
use compiler_frontend::checking::tree::{
    BinderId, BinderKind, DeclarationAbstraction, ExpressionId, ExpressionKind, LetBindings,
    PatternGuard, VariableResolution, WhereExpression,
};
use compiler_frontend::checking::types::{
    Depth, FileId, ForallBinder, Name, Prim, Type, TypeId, Types,
};
use compiler_frontend::indexing::items::{TermItemId, TypeItemId};

const FILE: FileId = FileId { raw: 1 };

fn source(raw: u32) -> SourceId {
    SourceId { raw }
}

fn setup() -> (CheckState, Types, Prim) {
    let mut types = Types::new();
    let mut constructor = |raw| types.intern_type(Type::Constructor(FILE, TypeItemId { raw }));
    let prim = Prim {
        t: constructor(0),
        type_to_type: constructor(1),
        function: constructor(2),
        constraint: constructor(3),
        boolean: constructor(4),
        partial: constructor(5),
        record: constructor(6),
    };
    (CheckState::new(FILE), types, prim)
}

/// The shape of an expression.
fn shape(state: &CheckState, id: ExpressionId) -> String {
    let tree = &state.checked.tree;
    match &tree.find_expression(id).unwrap().kind {
        ExpressionKind::Error => "error".to_string(),
        ExpressionKind::Integer { value } => value.to_string(),
        ExpressionKind::Variable { resolution: VariableResolution::Source(resolution) } => {
            match resolution {
                TermVariableResolution::Reference(_, item) => format!("t{}", item.raw),
                other => format!("{other:?}"),
            }
        }
        ExpressionKind::TermApplication { function, argument } => {
            format!("({} {})", shape(state, *function), shape(state, *argument))
        }
        ExpressionKind::EvidenceApplication { function, evidence, .. } => {
            format!("({} {{{}}})", shape(state, *function), evidence.raw)
        }
        ExpressionKind::EvidenceAbstraction { binder, expression } => {
            format!("(\\{{{}}} {})", binder.raw, shape(state, *expression))
        }
        ExpressionKind::Lambda { binders, expression } => {
            let binders: Vec<String> = binders.iter().map(|b| format!("b{}", b.raw)).collect();
            format!("(\\{} {})", binders.join(" "), shape(state, *expression))
        }
        ExpressionKind::Let { expression, .. } => format!("(let {})", shape(state, *expression)),
        ExpressionKind::IfThenElse { condition, then, else_ } => format!(
            "(if {} {} {})",
            shape(state, *condition),
            shape(state, *then),
            shape(state, *else_)
        ),
        ExpressionKind::Case { scrutinees, alternatives } => {
            format!("(case {} {})", scrutinees.len(), alternatives.len())
        }
        other => format!("{other:?}"),
    }
}

fn integer(state: &mut CheckState, value: i32, type_id: TypeId) -> ElaboratedExpression {
    allocate_expression(state, type_id, ExpressionKind::Integer { value })
}

fn function(raw: u32, type_id: TypeId) -> DesugaredFunction {
    let resolution = Some(TermVariableResolution::Reference(FILE, TermItemId { raw }));
    DesugaredFunction { resolution, type_id }
}

fn application(argument: TypeId, result: TypeId) -> UnanchoredApplication {
    UnanchoredApplication { implicit: vec![], argument, result }
}

fn bind(binder: u32, expression: u32) -> DoStatement {
    DoStatement::Bind { binder: Some(source(binder)), expression: Some(source(expression)) }
}

fn discard(expression: u32) -> DoStatement {
    DoStatement::Discard { expression: Some(source(expression)) }
}

// do
//   x <- 1
//   let ..
//   2
#[test]
fn do_blocks() {
    let (mut state, mut types, prim) = setup();
    let t = prim.t;
    let x = state.allocate_binder(source(10), t, BinderKind::Variable);
    let inferred = Some(ElaboratedBinder { type_id: t, binder: x });
    let mut step = |state: &mut CheckState, types: &mut Types, number, statement, inferred| {
        do_step(state, types, &prim, source(number), statement, inferred)
    };
    let steps = vec![
        step(&mut state, &mut types, 0, bind(10, 11), inferred),
        step(&mut state, &mut types, 1, DoStatement::Let, None),
        step(&mut state, &mut types, 2, discard(12), None),
    ];
    assert_eq!(do_functions(&steps), (true, false));
    assert_eq!(
        do_final_step(&steps),
        DoBlockFinalStep::Discard { expression: Some(source(12)) }
    );
    let plan = begin_do(&mut state, &mut types, &prim, &steps).unwrap();
    assert_eq!(plan.final_expression, Some(source(12)));
    assert_eq!(plan.continuations.len(), 2);
    assert!(state.checked.errors.is_empty());
    let request = do_request(&mut state, &mut types, &prim, steps[0], 0, &plan.continuations);
    let (binder, now, next) = match request {
        DoRequest::Bind { crumb, expression, binder, now, next } => {
            assert_eq!(crumb, ErrorCrumb::InferringDoBind(source(0)));
            assert_eq!(expression, source(11));
            (binder, now, next)
        }
        other => panic!("{other:?}"),
    };
    assert_eq!((now, next), (plan.continuations[0], plan.continuations[1]));
    let action = integer(&mut state, 1, t);
    let first = application(t, t);
    let applied = apply_do_function(&mut state, &function(7, t), &first, action);
    let lambda_type = do_lambda_type(&mut types, binder.type_id, next);
    assert_eq!(types.lookup_type(lambda_type), Type::Function(t, next));
    let checked = infer_do_bind_core(&state, applied, first, application(t, t), lambda_type, now);
    let request = do_request(&mut state, &mut types, &prim, steps[1], 1, &plan.continuations);
    assert!(matches!(request, DoRequest::CheckLet { .. }));
    let request = do_request(&mut state, &mut types, &prim, steps[2], 1, &plan.continuations);
    assert!(matches!(request, DoRequest::Final));
    let last = integer(&mut state, 2, next);
    let checked = vec![
        CheckedDoStep::Application { application: checked, binder: binder.binder },
        CheckedDoStep::Let { bindings: LetBindings { chunks: vec![] } },
    ];
    let block = finish_do(&mut state, &mut types, checked, &plan.continuations, Some(last));
    assert_eq!(block.type_id, now);
    assert_eq!(shape(&state, block.expression), "((t7 1) (\\b0 (let 2)))");
}

#[test]
fn do_blocks_that_end_badly() {
    let (mut state, mut types, prim) = setup();
    assert_eq!(do_final_step(&vec![]), DoBlockFinalStep::Empty);
    let block = begin_do(&mut state, &mut types, &prim, &vec![]).unwrap_err();
    assert_eq!(shape(&state, block.expression), "error");
    assert!(matches!(state.checked.errors[0].kind, ErrorKind::EmptyDoBlock));

    let missing = DoStatement::Bind { binder: None, expression: Some(source(5)) };
    let step = do_step(&mut state, &mut types, &prim, source(3), missing, None);
    let plan = begin_do(&mut state, &mut types, &prim, &vec![step]).unwrap();
    assert_eq!(plan.final_expression, Some(source(5)));
    assert!(matches!(state.checked.errors[1].kind, ErrorKind::InvalidFinalBind));
    assert_eq!(state.checked.errors[1].crumbs, vec![ErrorCrumb::InferringDoBind(source(3))]);

    let step = do_step(&mut state, &mut types, &prim, source(4), DoStatement::Let, None);
    let plan = begin_do(&mut state, &mut types, &prim, &vec![step]).unwrap();
    assert_eq!(plan.final_expression, None);
    assert_eq!(plan.continuations.len(), 1);
    assert!(matches!(state.checked.errors[2].kind, ErrorKind::InvalidFinalLet));
    assert_eq!(state.checked.errors[2].crumbs, vec![ErrorCrumb::CheckingDoLet(source(4))]);
    let checked = vec![CheckedDoStep::Let { bindings: LetBindings { chunks: vec![] } }];
    let block = finish_do(&mut state, &mut types, checked, &plan.continuations, None);
    assert_eq!(shape(&state, block.expression), "(let error)");
}

#[test]
fn missing_actions_are_errors() {
    let (mut state, mut types, prim) = setup();
    let statement = DoStatement::Discard { expression: None };
    let first = do_step(&mut state, &mut types, &prim, source(0), statement, None);
    let last = do_step(&mut state, &mut types, &prim, source(1), discard(2), None);
    let steps = vec![first, last];
    assert_eq!(do_functions(&steps), (false, true));
    let plan = begin_do(&mut state, &mut types, &prim, &steps).unwrap();
    let request = do_request(&mut state, &mut types, &prim, first, 0, &plan.continuations);
    let DoRequest::Checked(checked) = request else { panic!("{request:?}") };
    let body = integer(&mut state, 2, prim.t);
    let block =
        finish_do(&mut state, &mut types, vec![checked], &plan.continuations, Some(body));
    assert_eq!(shape(&state, block.expression), "(error (\\b0 2))");
}

#[test]
fn functions_that_are_not_known_are_made_up() {
    let (mut state, mut types, prim) = setup();
    let known = (TermVariableResolution::Reference(FILE, TermItemId { raw: 3 }), prim.t);
    let found = lookup_or_synthesise_bind(&mut state, &mut types, &prim, Some(known));
    assert_eq!(found, DesugaredFunction { resolution: Some(known.0), type_id: prim.t });
    let made = lookup_or_synthesise_bind(&mut state, &mut types, &prim, None);
    assert_eq!(made.resolution, None);
    // m a -> (a -> m b) -> m b
    let Type::Function(first, rest) = types.lookup_type(made.type_id) else { panic!() };
    let Type::Function(second, result) = types.lookup_type(rest) else { panic!() };
    let Type::Application(m, a) = types.lookup_type(first) else { panic!() };
    let Type::Function(argument, body) = types.lookup_type(second) else { panic!() };
    assert_eq!(argument, a);
    assert_eq!(body, result);
    assert!(matches!(types.lookup_type(result), Type::Application(again, _) if again == m));
    assert!(matches!(types.lookup_type(m), Type::Unification(_)));
    let head = made.allocate_expression(&mut state);
    assert_eq!(shape(&state, head.expression), "error");
}

#[test]
fn discard_is_found_like_bind() {
    let (mut state, mut types, prim) = setup();
    let bind = lookup_or_synthesise_bind(&mut state, &mut types, &prim, None);
    let (mut other_state, mut other_types, other_prim) = setup();
    let discard =
        lookup_or_synthesise_discard(&mut other_state, &mut other_types, &other_prim, None);
    assert_eq!(bind, discard);
    assert_eq!(types.lookup_type(bind.type_id), other_types.lookup_type(discard.type_id));
    for variable in 0..3 {
        assert_eq!(
            state.unifications.get(variable).kind,
            other_state.unifications.get(variable).kind
        );
    }
    let known = (TermVariableResolution::Reference(FILE, TermItemId { raw: 3 }), prim.t);
    let discard = lookup_or_synthesise_discard(&mut state, &mut types, &prim, Some(known));
    assert_eq!(discard, DesugaredFunction { resolution: Some(known.0), type_id: prim.t });
}

#[test]
fn constraints_keep_their_origins() {
    let (mut state, _types, prim) = setup();
    let evidence = state.push_wanted(prim.constraint);
    let implicit = ImplicitApplication::Evidence {
        evidence,
        constraint: prim.constraint,
        result: prim.t,
    };
    state.crumbs.push(ErrorCrumb::InferringDoBind(source(4)));
    let first = UnanchoredApplication { implicit: vec![implicit], argument: prim.t, result: prim.t };
    let function = integer(&mut state, 1, prim.t);
    let second = application(prim.t, prim.t);
    let checked = infer_do_bind_core(&state, function, first, second, prim.t, prim.t);
    let steps = vec![CheckedDoStep::Application { application: checked, binder: BinderId { raw: 0 } }];
    let origins = continuation_origins(&steps, source(9));
    assert_eq!(origins.len(), 1);
    assert_eq!(origins[0].constraint, prim.constraint);
    assert_eq!(
        origins[0].crumbs,
        vec![
            ErrorCrumb::InferringDoBind(source(4)),
            ErrorCrumb::InferringExpression(source(9)),
        ]
    );
    assert!(continuation_origins(&vec![], source(9)).is_empty());
}

// ado
//   x <- 1
//   y <- 2
//   in 3
#[test]
fn ado_blocks() {
    let (mut state, mut types, prim) = setup();
    let t = prim.t;
    let mut steps = vec![];
    for number in 0..2 {
        let binder = state.allocate_binder(source(number), t, BinderKind::Variable);
        let inferred = Some(ElaboratedBinder { type_id: t, binder });
        let statement = bind(number, 10 + number);
        let step = ado_step(&mut state, &mut types, &prim, source(number), statement, inferred);
        steps.push(step.unwrap());
    }
    let (argument_types, binders) = ado_binders(&steps);
    assert_eq!(argument_types, vec![t, t]);
    assert_eq!(binders, vec![BinderId { raw: 0 }, BinderId { raw: 1 }]);
    let plan = begin_ado(&mut state, &mut types, &prim, &steps).unwrap();
    assert!(plan.needs_apply);
    let request = ado_request(steps[0], plan.lambda_type, None);
    assert_eq!(
        request,
        AdoRequest::MapAction {
            crumb: ErrorCrumb::InferringAdoMap(source(0)),
            expression: source(10),
            first_argument: plan.lambda_type,
        }
    );
    let one = integer(&mut state, 1, t);
    let mapped = infer_ado_application_core(
        &mut state,
        &function(7, t),
        application(t, t),
        application(t, t),
        one,
    );
    let request = ado_request(steps[1], plan.lambda_type, Some(mapped.type_id()));
    assert!(matches!(
        request,
        AdoRequest::ApplyAction { first_argument, .. } if first_argument == t
    ));
    let two = integer(&mut state, 2, t);
    let applied = infer_ado_application_core(
        &mut state,
        &function(8, t),
        application(t, t),
        application(t, t),
        two,
    );
    let body = integer(&mut state, 3, t);
    let block = finish_ado(&mut state, plan, &vec![mapped, applied], Some(body), false, vec![]);
    assert_eq!(shape(&state, block.expression), "((t8 ((t7 (\\b0 b1 3)) 1)) 2)");
    assert_eq!(block.type_id, t);
}

#[test]
fn ado_blocks_without_actions() {
    let (mut state, mut types, prim) = setup();
    let t = prim.t;
    assert!(begin_ado(&mut state, &mut types, &prim, &vec![]).is_none());
    let one = integer(&mut state, 1, t);
    let bindings = || vec![LetBindings { chunks: vec![] }];
    let block =
        pure_ado(&mut state, &function(5, t), &application(t, t), one, false, bindings());
    assert_eq!(shape(&state, block.expression), "(let (t5 1))");
    assert!(state.checked.errors.is_empty());
    let block = empty_ado(&mut state, &mut types, vec![]);
    assert_eq!(shape(&state, block.expression), "error");
    assert!(matches!(state.checked.errors[0].kind, ErrorKind::EmptyAdoBlock));
    let statement = DoStatement::Discard { expression: None };
    assert!(ado_step(&mut state, &mut types, &prim, source(0), statement, None).is_none());
}

fn quantify(types: &mut Types, visible: bool, kind: TypeId, body: TypeId) -> (ForallBinder, TypeId) {
    let name = Name { file: FILE, unique: 50, scope: None };
    let binder = ForallBinder { visible, name, kind, scope: None };
    let id = types.intern_forall_binder(binder);
    let quantified = types.intern_forall(id, body);
    (binder, quantified)
}

#[test]
fn quantifiers_are_bound_up_to_a_visible_one() {
    let (mut state, mut types, prim) = setup();
    let t = prim.t;
    let arrow = types.intern_function(t, prim.boolean);
    let (binder, quantified) = quantify(&mut types, false, t, arrow);
    let mut bound = vec![];
    bind_callable_forall(&mut state, &mut types, &mut bound, binder, prim.boolean);
    let (name, first) = bound[0];
    assert_eq!(name, binder.name);
    assert_eq!(types.lookup_type(first), Type::Unification(0));
    assert_eq!(state.unifications.get(0).kind, prim.boolean);
    match callable_forall_step(&types, &bound, quantified) {
        CallableStep::Bind { binder: next, body } => assert_eq!((next, body), (binder, arrow)),
        other => panic!("{other:?}"),
    }
    bind_callable_forall(&mut state, &mut types, &mut bound, binder, t);
    assert_eq!(types.lookup_type(bound[1].1), Type::Unification(1));
    let (_, visible) = quantify(&mut types, true, t, arrow);
    for last in [visible, arrow] {
        match callable_forall_step(&types, &bound, last) {
            CallableStep::Substitute { bindings } => assert_eq!(bindings, bound),
            other => panic!("{other:?}"),
        }
    }
}

#[test]
fn callable_types() {
    let (mut state, mut types, prim) = setup();
    let t = prim.t;
    let arrow = types.intern_function(t, prim.boolean);
    let head = analyse_callable_head(&mut state, &mut types, &prim, arrow);
    let function = CallableAnalysis::Function { argument: t, result: prim.boolean };
    assert_eq!(head, CallableHead::Analysed(function));
    let constrained = types.intern_constrained(prim.partial, arrow);
    let head = analyse_callable_head(&mut state, &mut types, &prim, constrained);
    let constraint = CallableAnalysis::Constraint { constraint: prim.partial, result: arrow };
    assert_eq!(head, CallableHead::Analysed(constraint));
    let (binder, quantified) = quantify(&mut types, false, t, arrow);
    let head = analyse_callable_head(&mut state, &mut types, &prim, quantified);
    assert_eq!(head, CallableHead::Analysed(CallableAnalysis::Forall { binder, body: arrow }));
    let head = analyse_callable_head(&mut state, &mut types, &prim, t);
    assert_eq!(head, CallableHead::Analysed(CallableAnalysis::NotCallable));
    let unsolved = state.fresh_unification(&mut types, t);
    let head = analyse_callable_head(&mut state, &mut types, &prim, unsolved);
    let CallableHead::Solve { unification, function, argument, result } = head else {
        panic!("{head:?}")
    };
    assert_eq!(unification, 0);
    assert_eq!(types.lookup_type(function), Type::Function(argument, result));
    let partly = types.intern_application(prim.function, t);
    let applied = types.intern_application(partly, prim.boolean);
    let head = analyse_callable_head(&mut state, &mut types, &prim, applied);
    assert_eq!(head, CallableHead::Applied { function: partly, result: prim.boolean });
    assert_eq!(analyse_applied_function(&types, partly), Some((prim.function, t)));
    assert_eq!(analyse_applied_function(&types, t), None);
}

#[test]
fn implicit_arguments_come_first() {
    let (mut state, types, prim) = setup();
    let t = prim.t;
    let pending = vec![
        PendingImplicitApplication::Type { result: t },
        PendingImplicitApplication::Constraint { constraint: prim.partial, result: t },
    ];
    let implicit = resolve_pending(&mut state, &pending);
    assert_eq!(implicit.len(), 2);
    let head = integer(&mut state, 1, t);
    let argument = integer(&mut state, 2, t);
    let applied = materialize_application(&mut state, head, &implicit, prim.boolean, argument);
    assert_eq!(shape(&state, applied.expression), "((1 {0}) 2)");
    assert_eq!(applied.type_id, prim.boolean);
    assert_eq!(
        instantiate_expression_step(&mut state, &types, head, t),
        InstantiationStep::Done
    );
}

#[test]
fn arguments_of_functions() {
    let (mut state, _types, prim) = setup();
    let t = prim.t;
    let mut pending = vec![PendingImplicitApplication::Type { result: t }];
    let constraint = CallableAnalysis::Constraint { constraint: prim.partial, result: t };
    let step = check_unanchored_application_step(&mut state, &mut pending, constraint);
    assert!(matches!(step, UnanchoredStep::Analyse { function } if function == t));
    assert_eq!(pending.len(), 2);
    assert!(state.checked.evidence.variables.is_empty());
    let step = check_unanchored_application_step(
        &mut state,
        &mut pending,
        CallableAnalysis::NotCallable,
    );
    assert!(matches!(step, UnanchoredStep::NotCallable));
    let function = CallableAnalysis::Function { argument: prim.boolean, result: t };
    let step = check_unanchored_application_step(&mut state, &mut pending, function);
    let UnanchoredStep::Applied { application } = step else { panic!("{step:?}") };
    assert_eq!((application.argument, application.result), (prim.boolean, t));
    assert_eq!(application.implicit.len(), 2);
    assert_eq!(state.checked.evidence.variables.len(), 1);
}

#[test]
fn application_steps() {
    let (mut state, mut types, prim) = setup();
    let t = prim.t;
    let head = integer(&mut state, 1, t);
    let analysis = CallableAnalysis::Function { argument: t, result: prim.boolean };
    let step = check_expression_term_application_step(&mut state, &mut types, head, analysis);
    assert_eq!(step, TermApplicationStep::CheckArgument { argument: t, result: prim.boolean });
    let step = check_expression_term_application_step(
        &mut state,
        &mut types,
        head,
        CallableAnalysis::NotCallable,
    );
    let TermApplicationStep::Error(error) = step else { panic!("{step:?}") };
    assert_eq!(shape(&state, error.expression), "error");
    let step = check_expression_type_application_step(&mut state, &mut types, head, t, t);
    assert!(matches!(step, TypeApplicationStep::Error(_)));
    assert!(matches!(
        state.checked.errors.last().unwrap().kind,
        ErrorKind::NoVisibleTypeVariable { function_type } if function_type == t
    ));
    let (binder, visible) = quantify(&mut types, true, t, prim.boolean);
    let step = check_expression_type_application_step(&mut state, &mut types, head, t, visible);
    assert_eq!(step, TypeApplicationStep::Substitute { binder, body: prim.boolean });
    let (binder, hidden) = quantify(&mut types, false, t, prim.boolean);
    let step = check_expression_type_application_step(&mut state, &mut types, head, t, hidden);
    assert_eq!(step, TypeApplicationStep::Instantiate { binder, body: prim.boolean });
}

#[test]
fn missing_arguments() {
    let (mut state, mut types, _) = setup();
    let argument = ExpressionArgument::Term(Some(source(3)));
    let request = begin_application(&mut state, &mut types, argument);
    assert_eq!(request, ArgumentRequest::ApplyTerm(source(3)));
    let argument = ExpressionArgument::Type(Some(source(4)));
    let request = begin_application(&mut state, &mut types, argument);
    assert_eq!(request, ArgumentRequest::ApplyType(source(4)));
    let argument = ExpressionArgument::Type(None);
    let request = begin_application(&mut state, &mut types, argument);
    assert!(matches!(request, ArgumentRequest::Error(_)));
    let pair = InfixPair { tick: Some(source(1)), element: Some(source(2)) };
    let begun = begin_infix_pair(&mut state, &mut types, pair);
    assert_eq!(begun, Ok((source(1), source(2))));
    let pair = InfixPair { tick: None, element: Some(source(2)) };
    assert!(begin_infix_pair(&mut state, &mut types, pair).is_err());
    let error = invalid_application(&mut state, &mut types);
    assert!(matches!(types.lookup_type(error.type_id), Type::Unknown(_)));
}

fn source_equation(binders: &[u32]) -> SourceEquation {
    let binders = binders.iter().map(|&raw| source(raw)).collect();
    SourceEquation { source: None, binders, has_guarded: true }
}

#[test]
fn equations_are_checked_in_order() {
    let (mut state, mut types, prim) = setup();
    let t = prim.t;
    let arrow = types.intern_function(t, prim.boolean);
    let signature =
        ValueEquationSignature { signature: arrow, arguments: vec![t], result: prim.boolean };
    let patterns = vec![prim.partial];
    let mut last = source_equation(&[]);
    last.has_guarded = false;
    let equations = vec![source_equation(&[1, 2]), last];
    let origin = EquationTypeOrigin::Implicit;
    let mut progress = EquationProgress::new();
    let mut steps = vec![];
    loop {
        let step = check_equations_step(
            &mut state, &mut types, origin, &signature, &patterns, &equations, &progress,
        );
        steps.push(step);
        match step {
            CheckEquationStep::CheckBinder { .. } => {
                assert_eq!(state.checked.errors.len(), 1);
                progress.push_binder(BinderId { raw: 7 }, t);
            }
            CheckEquationStep::InferBinder { .. } => {
                assert_eq!(state.checked.errors.len(), 1);
                progress.push_binder(BinderId { raw: 8 }, t);
            }
            CheckEquationStep::CheckBody { equation, expected }
            | CheckEquationStep::MissingBody { equation, expected } => {
                let body = missing_guarded_expression(&mut state, expected);
                progress.push_body(&equations[equation], body);
            }
            CheckEquationStep::Done => break,
        }
    }
    assert_eq!(
        steps,
        vec![
            CheckEquationStep::CheckBinder { binder: source(1), expected: prim.partial },
            CheckEquationStep::InferBinder { binder: source(2) },
            CheckEquationStep::CheckBody { equation: 0, expected: prim.boolean },
            CheckEquationStep::MissingBody { equation: 1, expected: arrow },
            CheckEquationStep::Done,
        ]
    );
    assert!(matches!(
        state.checked.errors[0].kind,
        ErrorKind::TooManyBinders { signature: None, expected: 1, actual: 2 }
    ));
    let checked = progress.finish(patterns.clone(), vec![]);
    assert_eq!(checked.patterns, patterns);
    assert_eq!(checked.equations[0].binders, vec![BinderId { raw: 7 }, BinderId { raw: 8 }]);
    assert!(checked.equations[1].binders.is_empty());
}

#[test]
fn equations_are_inferred_in_order() {
    let (mut state, mut types, prim) = setup();
    let equations = vec![source_equation(&[1, 2]), source_equation(&[3])];
    let minimum = minimum_equation_arity(&equations);
    let mut progress = EquationProgress::new();
    let mut inferred_types = vec![];
    let mut binders = vec![];
    loop {
        match infer_equations_step(&mut types, minimum, prim.partial, &equations, &progress) {
            InferEquationStep::InferBinder { binder } => {
                binders.push(binder);
                progress.push_binder(BinderId { raw: 7 }, prim.t);
            }
            InferEquationStep::CheckBody { equation, inferred, expected } => {
                assert_eq!(expected, prim.partial);
                inferred_types.push(types.lookup_type(inferred));
                let body = missing_guarded_expression(&mut state, expected);
                progress.push_body(&equations[equation], body);
            }
            InferEquationStep::MissingBody { .. } => panic!("both equations have a body"),
            InferEquationStep::Done => break,
        }
    }
    assert_eq!(binders, vec![source(1), source(2), source(3)]);
    let expected = Type::Function(prim.t, prim.partial);
    assert_eq!(inferred_types, vec![expected, expected]);
    assert_eq!(progress.elaborated.len(), 2);
}

#[test]
fn guarded_alternatives_are_collected() {
    let (mut state, _types, prim) = setup();
    let guard = SourcePatternGuard { binder: None, expression: Some(source(4)) };
    let sources = vec![
        SourceAlternative { pattern_guards: vec![guard], has_where: true },
        SourceAlternative { pattern_guards: vec![], has_where: false },
    ];
    let mut progress = GuardedProgress::new();
    let request = PatternGuardRequest::Boolean { expression: source(4) };
    assert_eq!(progress.step(&sources), GuardedStep::CheckGuard { request });
    let boolean = integer(&mut state, 1, prim.boolean);
    progress.push_guard(PatternGuard::Boolean { expression: boolean.expression });
    assert_eq!(progress.step(&sources), GuardedStep::CheckWhere { alternative: 0 });
    let body = integer(&mut state, 2, prim.t);
    let where_expression = WhereExpression::new(body.expression);
    let checked = ElaboratedWhereExpression { type_id: prim.t, where_expression };
    progress.push_alternative(&mut state, Some(checked), prim.t);
    assert_eq!(progress.step(&sources), GuardedStep::MissingWhere);
    progress.push_alternative(&mut state, None, prim.t);
    assert_eq!(progress.step(&sources), GuardedStep::Done);
    let guarded = progress.finish(prim.t);
    assert_eq!(guarded.type_id, prim.t);
    let alternatives = &guarded.guarded_expression.alternatives;
    assert_eq!(alternatives.len(), 2);
    assert_eq!(alternatives[0].pattern_guards.len(), 1);
    assert_eq!(shape(&state, alternatives[0].where_expression.expression), "2");
    assert!(alternatives[1].pattern_guards.is_empty());
    assert_eq!(shape(&state, alternatives[1].where_expression.expression), "error");
}

#[test]
fn arities() {
    let equations = vec![source_equation(&[1, 2]), source_equation(&[3])];
    assert_eq!(required_arity(&equations), 2);
    assert_eq!(minimum_equation_arity(&equations), 1);
    assert_eq!(required_arity(&vec![]), 0);
    assert_eq!(minimum_equation_arity(&vec![]), 0);
    assert_eq!(
        instantiate_pattern_arguments(&equations),
        vec![(0, source(1)), (1, source(2)), (0, source(3))]
    );
    let (_, mut types, prim) = setup();
    let arguments = vec![prim.t, prim.boolean];
    let inferred = inferred_equation_type(&mut types, &arguments, 1, prim.partial);
    assert_eq!(types.lookup_type(inferred), Type::Function(prim.t, prim.partial));
}

#[test]
fn signatures_of_equations() {
    let (mut state, mut types, prim) = setup();
    let t = prim.t;
    let name = Name { file: FILE, unique: 0, scope: None };
    let rigid = types.intern_rigid(name, Depth { level: 1 }, t);
    let binder =
        types.intern_forall_binder(ForallBinder { visible: false, name, kind: t, scope: None });
    let abstractions = vec![
        SkolemisedAbstraction::Type { binder, rigid },
        SkolemisedAbstraction::Argument { argument: t },
        SkolemisedAbstraction::Constraint { constraint: prim.partial },
        SkolemisedAbstraction::Argument { argument: prim.boolean },
    ];
    let bound = bind_signature_abstractions(&mut state, &abstractions);
    assert_eq!(bound.len(), 4);
    assert_eq!(bound[0], DeclarationAbstraction::Type { binder, rigid });
    assert_eq!(bound[1], DeclarationAbstraction::Argument);
    assert!(matches!(
        bound[2],
        DeclarationAbstraction::Evidence { constraint, .. } if constraint == prim.partial
    ));
    let signature = equation_signature(&mut types, &abstractions, t);
    assert_eq!(signature.arguments, vec![t, prim.boolean]);
    assert_eq!(signature.result, t);
    assert_eq!(binder_request(&signature.arguments, 1), BinderRequest::Check(prim.boolean));
    assert_eq!(binder_request(&signature.arguments, 2), BinderRequest::Infer);
    let rest = expected_guarded_type(&mut types, &signature, 1);
    assert_eq!(types.lookup_type(rest), Type::Function(prim.boolean, t));
    assert_eq!(expected_guarded_type(&mut types, &signature, 2), t);
    check_equation_arity(
        &mut state,
        EquationTypeOrigin::Explicit(source(8)),
        &signature,
        &source_equation(&[1, 2]),
    );
    assert!(state.checked.errors.is_empty());
    check_equation_arity(
        &mut state,
        EquationTypeOrigin::Explicit(source(8)),
        &signature,
        &source_equation(&[1, 2, 3]),
    );
    assert!(matches!(
        state.checked.errors[0].kind,
        ErrorKind::TooManyBinders { signature: Some(_), expected: 2, actual: 3 }
    ));
}

fn exhaustive() -> ExhaustivenessReport {
    ExhaustivenessReport { missing: None, redundant: vec![] }
}

#[test]
fn conditionals_and_lambdas() {
    let (mut state, mut types, prim) = setup();
    let t = prim.t;
    let one = integer(&mut state, 1, t);
    let two = integer(&mut state, 2, t);
    let conditional = if_then_else_core(&mut state, &prim, Some(one), Some(two), None, t);
    assert_eq!(shape(&state, conditional.expression), "(if 1 2 error)");
    assert_eq!(conditional.type_id, t);
    let arrow = types.intern_function(t, t);
    assert_eq!(check_lambda_step(&types, 0, arrow), LambdaStep::Decompose);
    let constrained = types.intern_constrained(prim.partial, arrow);
    assert_eq!(check_lambda_step(&types, 0, constrained), LambdaStep::Decompose);
    assert_eq!(check_lambda_step(&types, 1, constrained), LambdaStep::Abstract);
    let binders = vec![BinderId { raw: 0 }];
    let lambda =
        infer_lambda(&mut state, &mut types, &prim, &vec![t], binders, one, exhaustive());
    assert_eq!(shape(&state, lambda.expression), "(\\b0 1)");
    assert_eq!(lambda.type_id, arrow);
    // A pattern that does not match everything needs evidence.
    let report = ExhaustivenessReport { missing: Some(vec![]), redundant: vec![] };
    let binders = vec![BinderId { raw: 0 }];
    let lambda = infer_lambda(&mut state, &mut types, &prim, &vec![t], binders, one, report);
    assert_eq!(types.lookup_type(lambda.type_id), Type::Constrained(prim.partial, arrow));
}

#[test]
fn case_expressions() {
    let (mut state, mut types, prim) = setup();
    let branches = vec![
        CaseBranch { binders: vec![source(1), source(2)], has_guarded: true },
        CaseBranch { binders: vec![source(3)], has_guarded: true },
    ];
    assert_eq!(
        instantiate_trunk_types(&branches),
        vec![(0, source(1)), (1, source(2)), (0, source(3))]
    );
    let one = integer(&mut state, 1, prim.t);
    let case = case_of_core(
        &mut state,
        &mut types,
        &prim,
        ExpressionMode::Infer,
        prim.t,
        vec![one.expression],
        vec![],
        exhaustive(),
    );
    assert_eq!(shape(&state, case.expression), "(case 1 0)");
    assert_eq!(case.type_id, prim.t);
}

#[test]
fn guards() {
    let (mut state, _types, prim) = setup();
    let guard = SourcePatternGuard { binder: Some(source(1)), expression: Some(source(2)) };
    assert_eq!(
        pattern_guard_request(guard),
        PatternGuardRequest::Pattern { binder: source(1), expression: source(2) }
    );
    let guard = SourcePatternGuard { binder: None, expression: Some(source(2)) };
    assert_eq!(
        pattern_guard_request(guard),
        PatternGuardRequest::Boolean { expression: source(2) }
    );
    let guard = SourcePatternGuard { binder: None, expression: None };
    assert_eq!(pattern_guard_request(guard), PatternGuardRequest::Missing);
    let one = integer(&mut state, 1, prim.boolean);
    let checked = check_pattern_guard(&mut state, &prim, None, Some(one));
    assert_eq!(checked, PatternGuard::Boolean { expression: one.expression });
    let checked = check_pattern_guard(&mut state, &prim, None, None);
    let PatternGuard::Boolean { expression } = checked else { panic!("{checked:?}") };
    assert_eq!(shape(&state, expression), "error");
    let request = where_request(GuardedExpressionMode::Subsume { expected: prim.t });
    assert_eq!(request.mode, WhereExpressionMode::Infer);
    assert_eq!(request.subsume, Some(prim.t));
    let request = where_request(GuardedExpressionMode::Check { expected: prim.t });
    assert_eq!(request.mode, WhereExpressionMode::Check { expected: prim.t });
    assert_eq!(request.subsume, None);
}

#[test]
fn operator_trees() {
    let (_, mut types, prim) = setup();
    let leaf = |raw| Box::new(OperatorTree::Leaf(Some(source(raw))));
    let tree = OperatorTree::Branch(source(9), leaf(1), leaf(2));
    let infer = OperatorKindMode::Infer;
    let check = OperatorKindMode::Check { expected_type: prim.t };
    let request = operator_request(&mut types, &tree, true, infer);
    assert_eq!(request, OperatorRequest::Branch { operator_id: source(9) });
    let request = operator_request(&mut types, &tree, false, check);
    assert_eq!(request, OperatorRequest::Missing { type_id: prim.t });
    let request = operator_request(&mut types, &leaf(1), true, infer);
    assert_eq!(request, OperatorRequest::Infer { operand: source(1) });
    let request = operator_request(&mut types, &leaf(1), true, check);
    assert_eq!(
        request,
        OperatorRequest::Check { operand: source(1), expected_type: prim.t }
    );
    let request = operator_request(&mut types, &OperatorTree::Leaf(None), true, check);
    assert_eq!(request, OperatorRequest::Missing { type_id: prim.t });
    assert!(operator_chain(&mut types, Some(Some(tree)), infer).is_ok());
    let error = operator_chain(&mut types, None, check).unwrap_err();
    assert_eq!(error, prim.t);
    let error = operator_chain(&mut types, Some(None), infer).unwrap_err();
    assert!(matches!(types.lookup_type(error), Type::Unknown(_)));
    assert_eq!(invalid_operator(&mut types, check), prim.t);
}

#[test]
fn operators_are_applied() {
    let (mut state, mut types, prim) = setup();
    let t = prim.t;
    let left = || application(t, prim.boolean);
    let right = || application(prim.boolean, prim.partial);
    assert_eq!(
        operand_modes(&left(), &right()),
        (
            OperatorKindMode::Check { expected_type: t },
            OperatorKindMode::Check { expected_type: prim.boolean },
        )
    );
    record_term_branch_types(&mut state, source(9), &left(), &right());
    let recorded = state.checked.term_operators.find(9).unwrap();
    assert_eq!((recorded.left, recorded.right, recorded.result), (t, prim.boolean, prim.partial));
    assert!(state.checked.type_operators.find(9).is_none());
    record_type_branch_types(&mut state, source(9), &left(), &right());
    assert!(state.checked.type_operators.find(9).is_some());
    let one = integer(&mut state, 1, t);
    let two = integer(&mut state, 2, prim.boolean);
    let plus = integer(&mut state, 0, t);
    let operator = (FILE, TermItemId { raw: 4 });
    let branch = operator_branch(source(9), operator, t, left(), right(), Some(one), Some(two));
    assert!(has_operands(&branch));
    let (built, result) = build_expression(&mut state, &branch, Some(plus));
    assert_eq!(result, prim.partial);
    assert_eq!(shape(&state, built.unwrap().expression), "((0 1) 2)");
    let branch = operator_branch(source(9), operator, t, left(), right(), Some(one), None);
    assert!(!has_operands(&branch));
    let (built, result) = build_expression(&mut state, &branch, Some(plus));
    assert!(built.is_none());
    assert_eq!(result, prim.partial);
    let binder = |raw| Some(ElaboratedBinder { type_id: t, binder: BinderId { raw } });
    let branch = operator_branch(source(9), operator, t, left(), right(), binder(0), binder(1));
    let (built, _) = build_binder(&mut state, &branch, Some(operator));
    let built = built.unwrap();
    match &state.checked.tree.find_binder(built.binder).unwrap().kind {
        BinderKind::Constructor { resolution, arguments } => {
            assert_eq!(*resolution, operator);
            assert_eq!(*arguments, vec![BinderId { raw: 0 }, BinderId { raw: 1 }]);
        }
        other => panic!("{other:?}"),
    }
    let item = (FILE, TypeItemId { raw: 8 });
    let branch = operator_branch(source(9), item, t, left(), right(), t, prim.boolean);
    let built = build_type(&mut types, &branch, Some(item), None);
    let BuiltType::Application { application: built } = built else { panic!("{built:?}") };
    assert_eq!(built.left.argument, t);
    assert_eq!(built.right.argument, prim.boolean);
    assert_eq!(built.result_kind, prim.partial);
    let synonym = build_type(&mut types, &branch, Some(item), Some((t, prim.boolean)));
    assert_eq!(synonym, BuiltType::Synonym { type_id: t, kind: prim.boolean });
    assert!(matches!(
        build_type(&mut types, &branch, None, None),
        BuiltType::Unknown { .. }
    ));
    assert!(should_defer_expansion(Some(true)));
    assert!(!should_defer_expansion(Some(false)));
    let constrained = types.intern_constrained(prim.partial, t);
    assert_eq!(expected_constraint(&types, constrained), Some((prim.partial, t)));
    assert_eq!(expected_constraint(&types, t), None);
}
