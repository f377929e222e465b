use compiler_frontend::checking::derive::generate::DeriveHead;
use compiler_frontend::checking::error::{ErrorCrumb, ErrorKind};
use compiler_frontend::checking::evidence::EvidenceBinderId;
use compiler_frontend::checking::lowering::{SourceId, TermVariableResolution};
use compiler_frontend::checking::operator::{OperatorKindMode, TypeOperand};
use compiler_frontend::checking::operator_steps::{
    BranchAnswer, BranchProgress, BranchRequest, BuildAnswer, BuildProgress, BuildRequest,
    OperatorHead, OperatorSort,
};
use compiler_frontend::checking::state::{
    CanonicalConstraintId, CheckState, ExhaustivenessReport,
};
use compiler_frontend::checking::term_items::{
    ClassMemberName, ConstrainedType, InferredConstraint, PendingValueGroup, Residual,
    SuperclassConstraint, TermSccState,
};
use compiler_frontend::checking::term_steps::{
    GeneralisedType, GroupAnswer, GroupProgress, InstanceMembers, MembersAnswer, MembersProgress,
    ValueAnswer, ValueProgress,
};
use compiler_frontend::checking::terms::application::{
    allocate_expression, materialize_application, materialize_implicit_applications,
    ElaboratedExpression, ImplicitApplication, InfixPair, UnanchoredApplication,
};
use compiler_frontend::checking::terms::binary::{
    AdoAction, AdoProgress, ApplicationAnswer, ApplicationRequest, DoAction, DoProgress,
    InfixProgress,
};
use compiler_frontend::checking::terms::blocks::{
    find_do_functions, AdoBlock, AdoBlockStep, DoBlock, DoBlockStep,
};
use compiler_frontend::checking::terms::equations::{
    missing_guarded_expression, CheckedValueEquations, EquationTypeOrigin,
};
use compiler_frontend::checking::terms::form_ado::{
    begin_ado, AdoStep, CheckedAdoApplication,
};
use compiler_frontend::checking::terms::form_do::{
    begin_do, lookup_or_synthesise_apply, lookup_or_synthesise_map, lookup_or_synthesise_pure,
    DesugaredFunction, DoStep, ElaboratedBinder,
};
use compiler_frontend::checking::terms::form_steps::{
    CaseProgress, CaseStep, LambdaAnswer, LambdaProgress,
};
use compiler_frontend::checking::terms::forms::{CaseBranch, ExpressionMode};
use compiler_frontend::checking::terms::guarded::GuardedExpressionMode;
use compiler_frontend::checking::tree::{
    BinderId, ExpressionId, ExpressionKind, InstanceImplementation, InstanceMember, LetBindings,
    TermDeclarationKind,
};
use compiler_frontend::checking::type_steps::{
    constructor_arguments, declared_result, equation_checks, record_equation, resolve_class,
    type_finalise_steps, types_of_class, with_arguments, FinaliseStep, KindsAnswer, KindsProgress,
    ParametersAnswer, ParametersProgress, PendingForeign, TypeEquation, TypeSccState,
};
use compiler_frontend::checking::types::{
    FileId, ForallBinder, Name, Prim, Type, TypeId, Types,
};
use compiler_frontend::indexing::items::{TermItemId, TypeItemId};
use compiler_frontend::indexing::source::AstId;

const FILE: FileId = FileId { raw: 1 };

fn source(raw: u32) -> SourceId {
    SourceId { raw }
}

fn term(raw: u32) -> TermItemId {
    TermItemId { raw }
}

fn ty(raw: u32) -> TypeItemId {
    TypeItemId { raw }
}

fn setup() -> (CheckState, Types, Prim) {
    let mut types = Types::new();
    let mut constructor = |raw| types.intern_type(Type::Constructor(FILE, ty(raw)));
    let prim = Prim {
        t: constructor(0),
        type_to_type: constructor(1),
        function: constructor(2),
        constraint: constructor(3),
        boolean: constructor(4),
        partial: constructor(5),
        record: constructor(6),
    };
    (CheckState::new(FILE), types, prim)
}

fn integer(state: &mut CheckState, value: i32, type_id: TypeId) -> ElaboratedExpression {
    allocate_expression(state, type_id, ExpressionKind::Integer { value })
}

fn function(raw: u32, type_id: TypeId) -> DesugaredFunction {
    let resolution = Some(TermVariableResolution::Reference(FILE, term(raw)));
    DesugaredFunction { resolution, type_id }
}

fn application(argument: TypeId, result: TypeId) -> UnanchoredApplication {
    UnanchoredApplication { implicit: vec![], argument, result }
}

fn next_id(state: &mut CheckState, type_id: TypeId) -> u32 {
    integer(state, 0, type_id).expression.raw
}

#[test]
fn only_evidence_takes_expressions() {
    let (mut state, _types, prim) = setup();
    let evidence = state.push_wanted(prim.constraint);
    let implicit = vec![
        ImplicitApplication::Type { result: prim.boolean },
        ImplicitApplication::Evidence { evidence, constraint: prim.constraint, result: prim.t },
        ImplicitApplication::Type { result: prim.partial },
    ];
    let head = integer(&mut state, 1, prim.t);
    let first = head.expression.raw;
    let applied = materialize_implicit_applications(&mut state, head, &implicit);
    assert_eq!(applied.type_id, prim.partial);
    assert_eq!(applied.expression, ExpressionId { raw: first + 1 });
    let whole = materialize_application(&mut state, head, &implicit, prim.t, head);
    assert_eq!(whole.expression, ExpressionId { raw: first + 3 });
    assert_eq!(next_id(&mut state, prim.t), first + 4);
}

#[test]
fn made_up_functions_share_their_variables() {
    let (mut state, mut types, prim) = setup();
    let map = lookup_or_synthesise_map(&mut state, &mut types, &prim, None);
    let Type::Function(mapping, rest) = types.lookup_type(map.type_id) else { panic!() };
    let Type::Function(from, to) = types.lookup_type(rest) else { panic!() };
    let Type::Function(a, b) = types.lookup_type(mapping) else { panic!() };
    let Type::Application(f, inner) = types.lookup_type(from) else { panic!() };
    assert_eq!(inner, a);
    assert_eq!(types.lookup_type(to), Type::Application(f, b));
    assert_eq!(types.lookup_type(f), Type::Unification(0));
    let apply = lookup_or_synthesise_apply(&mut state, &mut types, &prim, None);
    let Type::Function(lifted, _) = types.lookup_type(apply.type_id) else { panic!() };
    let Type::Application(g, _) = types.lookup_type(lifted) else { panic!() };
    assert_eq!(types.lookup_type(g), Type::Unification(3));
    let pure = lookup_or_synthesise_pure(&mut state, &mut types, &prim, None);
    let Type::Function(value, wrapped) = types.lookup_type(pure.type_id) else { panic!() };
    let Type::Application(h, content) = types.lookup_type(wrapped) else { panic!() };
    assert_eq!((types.lookup_type(h), content), (Type::Unification(6), value));
}

#[test]
fn actions_of_do_blocks() {
    let (mut state, mut types, prim) = setup();
    let t = prim.t;
    let action = DoAction {
        function: function(7, t),
        expression: source(1),
        binder_type: prim.boolean,
        now: prim.partial,
        next: prim.record,
    };
    let expression = integer(&mut state, 1, t);
    let mut progress = DoProgress::Begun;
    let mut requests = vec![];
    while let Some(request) = progress.request(action) {
        requests.push(request);
        let answer = match request {
            ApplicationRequest::Infer { .. } | ApplicationRequest::Subsume { .. } => {
                ApplicationAnswer::Expression(expression)
            }
            ApplicationRequest::Apply { .. } => {
                ApplicationAnswer::Application(Some(application(prim.boolean, prim.constraint)))
            }
            ApplicationRequest::Relate { .. } => ApplicationAnswer::Related,
            ApplicationRequest::Check { .. } => panic!("{request:?}"),
        };
        progress = progress.advance(&mut state, &mut types, action, answer);
    }
    let lambda_type = types.intern_function(prim.boolean, prim.record);
    assert_eq!(
        requests,
        vec![
            ApplicationRequest::Infer { expression: source(1) },
            ApplicationRequest::Apply { function: t },
            ApplicationRequest::Subsume { expression, expected: prim.boolean },
            ApplicationRequest::Apply { function: prim.constraint },
            ApplicationRequest::Relate { actual: lambda_type, expected: prim.boolean },
            ApplicationRequest::Relate { actual: prim.constraint, expected: prim.partial },
        ]
    );
    let DoProgress::Done { application: done } = progress else { panic!("{progress:?}") };
    assert_eq!((done.result, done.lambda_type), (prim.partial, lambda_type));
}

#[test]
fn actions_of_do_blocks_that_are_no_arguments() {
    let (mut state, mut types, prim) = setup();
    let action = DoAction {
        function: function(7, prim.t),
        expression: source(1),
        binder_type: prim.t,
        now: prim.t,
        next: prim.t,
    };
    let expression = integer(&mut state, 1, prim.t);
    let progress = DoProgress::Begun.advance(
        &mut state,
        &mut types,
        action,
        ApplicationAnswer::Expression(expression),
    );
    let progress = progress.advance(
        &mut state,
        &mut types,
        action,
        ApplicationAnswer::Application(None),
    );
    let Some(ApplicationRequest::Relate { actual, expected }) = progress.request(action) else {
        panic!("{progress:?}")
    };
    assert_eq!(expected, prim.t);
    assert!(matches!(types.lookup_type(actual), Type::Unknown(_)));
    let progress =
        progress.advance(&mut state, &mut types, action, ApplicationAnswer::Related);
    let DoProgress::Done { application } = progress else { panic!("{progress:?}") };
    let made = state.checked.tree.find_expression(application.function.expression).unwrap();
    assert!(matches!(made.kind, ExpressionKind::Error));
}

#[test]
fn steps_of_do_blocks() {
    let (mut state, mut types, prim) = setup();
    let statement = |raw| source(raw);
    let steps = vec![
        DoStep::Bind {
            statement: statement(1),
            binder_type: prim.boolean,
            binder: BinderId { raw: 4 },
            expression: Some(source(11)),
        },
        DoStep::Let { statement: statement(2) },
        DoStep::Discard { statement: statement(3), expression: None },
        DoStep::Discard { statement: statement(4), expression: Some(source(12)) },
    ];
    let known = (TermVariableResolution::Reference(FILE, term(7)), prim.t);
    let functions =
        find_do_functions(&mut state, &mut types, &prim, &steps, Some(known), None);
    assert_eq!(functions.bind, Some(function(7, prim.t)));
    assert!(functions.discard.is_some());
    let plan = begin_do(&mut state, &mut types, &prim, &steps).unwrap();
    let continuations = plan.continuations.clone();
    assert_eq!(continuations.len(), 3);
    let mut block = DoBlock::begin(steps, functions, plan);
    match block.step(&mut state, &mut types, &prim) {
        DoBlockStep::Action { crumb, binder, action } => {
            assert_eq!(crumb, ErrorCrumb::InferringDoBind(statement(1)));
            assert_eq!(binder, BinderId { raw: 4 });
            assert_eq!(action.function, function(7, prim.t));
            assert_eq!((action.now, action.next), (continuations[0], continuations[1]));
        }
        other => panic!("{other:?}"),
    }
    let step = block.step(&mut state, &mut types, &prim);
    let crumb = ErrorCrumb::CheckingDoLet(statement(2));
    assert_eq!(step, DoBlockStep::Let { crumb, statement: statement(2) });
    block.push_let(LetBindings { chunks: vec![] });
    // The action is missing, so there is nothing to ask.
    assert_eq!(block.step(&mut state, &mut types, &prim), DoBlockStep::Passed);
    assert_eq!(block.checked.len(), 2);
    assert_eq!(block.step(&mut state, &mut types, &prim), DoBlockStep::Passed);
    let step = block.step(&mut state, &mut types, &prim);
    let expression = Some(source(12));
    assert_eq!(step, DoBlockStep::Final { expression, expected: continuations[2] });
}

#[test]
fn steps_of_ado_blocks() {
    let (mut state, mut types, prim) = setup();
    let action = |raw| AdoStep::Action {
        statement: source(raw),
        binder_type: prim.boolean,
        binder: BinderId { raw },
        expression: source(raw + 10),
    };
    let steps = vec![action(1), AdoStep::Let { statement: source(2) }, action(3)];
    let plan = begin_ado(&mut state, &mut types, &prim, &steps).unwrap();
    let (lambda_type, expected) = (plan.lambda_type, plan.in_expression_type);
    let apply = function(8, prim.record);
    let mut block = AdoBlock::begin(steps, function(7, prim.t), Some(apply), plan);
    match block.step() {
        AdoBlockStep::Action { crumb, action } => {
            assert_eq!(crumb, ErrorCrumb::InferringAdoMap(source(1)));
            assert_eq!(action.function, function(7, prim.t));
            assert_eq!((action.expression, action.first_argument), (source(11), lambda_type));
        }
        other => panic!("{other:?}"),
    }
    block.push_action(CheckedAdoApplication::Error { result: prim.partial });
    assert!(matches!(block.step(), AdoBlockStep::Let { .. }));
    block.push_let(LetBindings { chunks: vec![] });
    match block.step() {
        AdoBlockStep::Action { crumb, action } => {
            assert_eq!(crumb, ErrorCrumb::InferringAdoApply(source(3)));
            assert_eq!((action.function, action.first_argument), (apply, prim.partial));
        }
        other => panic!("{other:?}"),
    }
    block.push_action(CheckedAdoApplication::Error { result: prim.t });
    assert_eq!(block.step(), AdoBlockStep::Final { expected });
}

#[test]
fn actions_of_ado_blocks() {
    let (mut state, mut types, prim) = setup();
    let action = AdoAction {
        function: function(7, prim.t),
        expression: source(1),
        first_argument: prim.record,
    };
    let expression = integer(&mut state, 1, prim.t);
    let mut progress = AdoProgress::Begun;
    let mut requests = vec![];
    while let Some(request) = progress.request(action) {
        requests.push(request);
        let answer = match request {
            ApplicationRequest::Apply { .. } => {
                ApplicationAnswer::Application(Some(application(prim.boolean, prim.constraint)))
            }
            ApplicationRequest::Relate { .. } => ApplicationAnswer::Related,
            _ => ApplicationAnswer::Expression(expression),
        };
        progress = progress.advance(&mut state, &mut types, action, answer);
    }
    assert_eq!(
        requests,
        vec![
            ApplicationRequest::Infer { expression: source(1) },
            ApplicationRequest::Apply { function: prim.t },
            ApplicationRequest::Relate { actual: prim.record, expected: prim.boolean },
            ApplicationRequest::Apply { function: prim.constraint },
            ApplicationRequest::Subsume { expression, expected: prim.boolean },
        ]
    );
    let AdoProgress::Done { application } = progress else { panic!("{progress:?}") };
    assert_eq!(application.type_id(), prim.constraint);
    let progress = AdoProgress::Inferred { expression };
    let progress = progress.advance(
        &mut state,
        &mut types,
        action,
        ApplicationAnswer::Application(None),
    );
    assert!(matches!(
        progress,
        AdoProgress::Done { application: CheckedAdoApplication::Error { .. } }
    ));
}

#[test]
fn chains_of_backticks() {
    let (mut state, mut types, prim) = setup();
    let pair = |tick, element| InfixPair { tick: Some(source(tick)), element };
    let tail = vec![pair(2, Some(source(3))), pair(4, None)];
    let head = source(1);
    let mut progress = InfixProgress::Head;
    let mut requests = vec![];
    while let Some(request) = progress.request(head) {
        requests.push(request);
        let answer = match request {
            ApplicationRequest::Apply { .. } => {
                ApplicationAnswer::Application(Some(application(prim.boolean, prim.t)))
            }
            ApplicationRequest::Relate { .. } => ApplicationAnswer::Related,
            _ => ApplicationAnswer::Expression(integer(&mut state, 1, prim.partial)),
        };
        progress = progress.advance(&mut state, &mut types, head, &tail, answer);
    }
    assert_eq!(requests.len(), 6);
    assert_eq!(requests[0], ApplicationRequest::Infer { expression: source(1) });
    assert_eq!(requests[1], ApplicationRequest::Infer { expression: source(2) });
    assert_eq!(requests[2], ApplicationRequest::Apply { function: prim.partial });
    assert!(matches!(requests[3], ApplicationRequest::Subsume { .. }));
    assert_eq!(requests[4], ApplicationRequest::Apply { function: prim.t });
    assert_eq!(
        requests[5],
        ApplicationRequest::Check { expression: source(3), expected: prim.boolean }
    );
    // The operand of the second function is missing.
    let InfixProgress::Done { expression } = progress else { panic!("{progress:?}") };
    let made = state.checked.tree.find_expression(expression.expression).unwrap();
    assert!(matches!(made.kind, ExpressionKind::Error));
    let done = InfixProgress::Head.advance(
        &mut state,
        &mut types,
        head,
        &vec![],
        ApplicationAnswer::Expression(expression),
    );
    assert!(matches!(done, InfixProgress::Done { expression: same } if same == expression));
}

#[test]
fn branches_of_operators() {
    let (mut state, mut types, prim) = setup();
    let head = OperatorHead {
        sort: OperatorSort::Term,
        operator_id: source(9),
        operator: (FILE, term(4)),
        operator_type: prim.t,
        mode: OperatorKindMode::Check { expected_type: prim.record },
    };
    let mut progress: BranchProgress<TermItemId, u32> = BranchProgress::Begun;
    let mut requests = vec![];
    while let Some(request) = progress.request(&head) {
        requests.push(request);
        let answer = match request {
            BranchRequest::Apply { function } if function == prim.t => {
                BranchAnswer::Application(Some(application(prim.boolean, prim.constraint)))
            }
            BranchRequest::Apply { .. } => {
                BranchAnswer::Application(Some(application(prim.t, prim.partial)))
            }
            BranchRequest::Operands { .. } => BranchAnswer::Operands(5, 6),
            BranchRequest::Subsume { .. } => BranchAnswer::Subsumed,
        };
        progress = progress.advance(&mut state, &mut types, &head, answer);
    }
    let check = |expected_type| OperatorKindMode::Check { expected_type };
    assert_eq!(
        requests,
        vec![
            BranchRequest::Apply { function: prim.t },
            BranchRequest::Apply { function: prim.constraint },
            BranchRequest::Operands { left: check(prim.boolean), right: check(prim.t) },
            BranchRequest::Subsume { result: prim.partial, expected_type: prim.record },
        ]
    );
    let BranchProgress::Ready { branch } = progress else { panic!("{progress:?}") };
    assert_eq!((branch.left.argument, branch.right.argument), ((5, prim.boolean), (6, prim.t)));
    assert_eq!(branch.right.result_type, prim.partial);
    assert!(state.checked.term_operators.find(9).is_some());
    let invalid: BranchProgress<TermItemId, u32> = BranchProgress::Begun;
    let invalid =
        invalid.advance(&mut state, &mut types, &head, BranchAnswer::Application(None));
    assert!(matches!(invalid, BranchProgress::Invalid { type_id } if type_id == prim.record));
}

#[test]
fn type_operators_are_built() {
    let (mut state, mut types, prim) = setup();
    let item = (FILE, ty(8));
    let head = OperatorHead {
        sort: OperatorSort::Type,
        operator_id: source(9),
        operator: item,
        operator_type: prim.t,
        mode: OperatorKindMode::Infer,
    };
    let progress = BranchProgress::Second {
        first: application(prim.t, prim.t),
        second: application(prim.boolean, prim.partial),
    };
    let answer = BranchAnswer::Operands(prim.record, prim.constraint);
    let progress = progress.advance(&mut state, &mut types, &head, answer);
    let BranchProgress::Ready { branch } = progress else { panic!("{progress:?}") };
    let left = TypeOperand { argument: prim.record, kind: prim.t };
    let right = TypeOperand { argument: prim.constraint, kind: prim.boolean };
    let target = (FILE, ty(9));
    let mut progress = BuildProgress::Begun;
    let mut requests = vec![];
    while let Some(request) = progress.request(&branch) {
        requests.push(request);
        let answer = match request {
            BuildRequest::Target => BuildAnswer::Target(Some(target)),
            BuildRequest::Kind => BuildAnswer::Type(prim.t),
            BuildRequest::Synonym { .. } => BuildAnswer::Synonym(None),
            BuildRequest::Apply { .. } => BuildAnswer::Type(prim.function),
            BuildRequest::Normalise { kind } => BuildAnswer::Type(kind),
        };
        progress = progress.advance(&mut types, &branch, answer);
    }
    let function = types.intern_type(Type::Constructor(FILE, ty(9)));
    assert_eq!(
        requests,
        vec![
            BuildRequest::Target,
            BuildRequest::Kind,
            BuildRequest::Synonym { target, kind: prim.t, left, right },
            BuildRequest::Apply { function, kind: prim.t, left, right },
            BuildRequest::Normalise { kind: prim.partial },
        ]
    );
    assert_eq!(progress, BuildProgress::Done { type_id: prim.function, kind: prim.partial });
    // Without a target nothing else is asked.
    let missing = BuildProgress::Begun.advance(&mut types, &branch, BuildAnswer::Target(None));
    assert!(missing.request(&branch).is_none());
    let BuildProgress::Done { type_id, kind } = missing else { panic!("{missing:?}") };
    assert_eq!(type_id, kind);
    let synonym = BuildProgress::Kinded { target, kind: prim.t };
    let answer = BuildAnswer::Synonym(Some((prim.t, prim.boolean)));
    let synonym = synonym.advance(&mut types, &branch, answer);
    assert_eq!(synonym, BuildProgress::Built { type_id: prim.t, kind: prim.boolean });
}

fn equations() -> CheckedValueEquations {
    CheckedValueEquations { patterns: vec![], abstractions: vec![], equations: vec![] }
}

#[test]
fn values_are_checked_or_inferred() {
    let (mut state, mut types, prim) = setup();
    let wildcard = state.allocate_wildcard(prim.t);
    let report =
        || ExhaustivenessReport { missing: Some(vec![wildcard]), redundant: vec![] };
    state.checked.term_item_types.put(1, prim.boolean);
    let checked =
        ValueProgress::begin(&mut state, &mut types, &prim, term(1), Some(source(3)));
    match &checked {
        ValueProgress::Check { origin, expected } => {
            assert_eq!(*origin, EquationTypeOrigin::Explicit(source(3)));
            assert_eq!(*expected, prim.boolean);
        }
        other => panic!("{other:?}"),
    }
    let progress = checked.advance(&mut state, &prim, ValueAnswer::Equations(equations()));
    let progress = progress.advance(&mut state, &prim, ValueAnswer::Patterns(report()));
    assert!(state.checked.evidence.variables.is_empty());
    let progress = progress.advance(&mut state, &prim, ValueAnswer::Residuals(vec![]));
    assert!(matches!(
        progress,
        ValueProgress::Done { group: PendingValueGroup::Checked { .. } }
    ));
    let inferred = ValueProgress::begin(&mut state, &mut types, &prim, term(2), None);
    let ValueProgress::Infer { group_type } = inferred else { panic!("{inferred:?}") };
    assert_eq!(state.checked.term_item_types.find(2), Some(&group_type));
    let progress = inferred.advance(&mut state, &prim, ValueAnswer::Equations(equations()));
    let progress = progress.advance(&mut state, &prim, ValueAnswer::Patterns(report()));
    // The value is partial.
    assert_eq!(state.checked.evidence.variables.len(), 1);
    let progress = progress.advance(&mut state, &prim, ValueAnswer::Residuals(vec![]));
    assert!(matches!(
        progress,
        ValueProgress::Done { group: PendingValueGroup::Inferred { .. } }
    ));
}

#[test]
fn groups_settle_before_they_are_generalised() {
    let (mut state, _types, prim) = setup();
    state.checked.term_item_types.put(1, prim.t);
    state.checked.term_item_types.put(3, prim.boolean);
    let items = vec![term(1), term(2), term(3)];
    let mut pending = TermSccState::new();
    let evidence = state.push_wanted(prim.partial);
    let residual = Residual {
        evidence,
        wanted: CanonicalConstraintId { raw: 0 },
        given: vec![],
        constraint: prim.partial,
    };
    let group = PendingValueGroup::Inferred { residuals: vec![residual], equations: vec![] };
    pending.insert(term(3), group);
    let mut progress = GroupProgress::begin(&state, &items);
    let mut seen = vec![];
    loop {
        let answer = match &progress {
            GroupProgress::Zonk { index, .. } => {
                seen.push(format!("zonk {index}"));
                GroupAnswer::Type(prim.t)
            }
            GroupProgress::Constrain { residuals, .. } => {
                seen.push(format!("constrain {}", residuals.len()));
                GroupAnswer::Constrained(ConstrainedType {
                    type_id: prim.record,
                    constraints: vec![InferredConstraint {
                        constraint: prim.partial,
                        binder: EvidenceBinderId { raw: 0 },
                    }],
                    ambiguous: vec![],
                    unsatisfied: vec![],
                })
            }
            GroupProgress::Settle { value, .. } => {
                seen.push("settle".to_string());
                GroupAnswer::Type(value.type_id)
            }
            GroupProgress::Measure { .. } => {
                seen.push("measure".to_string());
                GroupAnswer::Unsolved(vec![7])
            }
            GroupProgress::Generalise { value, unsolved, .. } => {
                assert_eq!(*unsolved, vec![7]);
                seen.push(format!("generalise {}", value.item_id.raw));
                let generalised = GeneralisedType { type_id: value.type_id, parameters: vec![] };
                GroupAnswer::Generalised(generalised, Some(Vec::<AstId>::new()))
            }
            GroupProgress::Done => break,
        };
        progress = progress.advance(&mut state, &mut pending, &items, false, answer);
    }
    assert_eq!(
        seen,
        vec![
            "zonk 0",
            "settle",
            "measure",
            "zonk 2",
            "constrain 1",
            "settle",
            "measure",
            "generalise 1",
            "generalise 3",
        ]
    );
    assert_eq!(state.checked.term_item_types.find(3), Some(&prim.record));
}

fn member(raw: u32, type_id: TypeId) -> InstanceMember {
    InstanceMember {
        resolution: (FILE, term(raw)),
        implementation_type: type_id,
        abstractions: vec![],
        equations: vec![],
    }
}

fn names() -> Option<Vec<ClassMemberName>> {
    let name = |raw, text: &str| ClassMemberName {
        item_id: term(raw),
        name: Some(text.to_string()),
    };
    Some(vec![name(1, "one"), name(2, "two")])
}

#[test]
fn members_of_instances() {
    let (mut state, _types, prim) = setup();
    let class = (FILE, ty(5));
    let instance = InstanceMembers { class, constraints: vec![prim.partial], count: 2 };
    let superclass = SuperclassConstraint { source_id: source(4), constraint: prim.constraint };
    let progress = MembersProgress::Superclasses.advance(
        &mut state,
        &instance,
        MembersAnswer::Superclasses(vec![superclass]),
    );
    assert!(matches!(progress, MembersProgress::Member { index: 0, .. }));
    let answer = MembersAnswer::Member(Some(member(2, prim.t)));
    let progress = progress.advance(&mut state, &instance, answer);
    assert!(matches!(progress, MembersProgress::Member { index: 1, .. }));
    let answer = MembersAnswer::Member(Some(member(1, prim.t)));
    let progress = progress.advance(&mut state, &instance, answer);
    assert!(matches!(progress, MembersProgress::Names { suppress: false, .. }));
    let progress = progress.advance(&mut state, &instance, MembersAnswer::Names(names()));
    assert!(state.checked.errors.is_empty());
    let progress = progress.advance(&mut state, &instance, MembersAnswer::Solved);
    let head = DeriveHead { derive_id: AstId { raw: 6 }, class, signature: prim.t };
    let declaration = progress.finish(head, vec![], vec![]).unwrap();
    match declaration.kind {
        TermDeclarationKind::Instance(instance) => {
            assert_eq!(instance.superclasses.len(), 1);
            let InstanceImplementation::Members(members) = instance.implementation else {
                panic!("members are expected")
            };
            assert_eq!(members[0].resolution.1, term(1));
            assert_eq!(members[1].resolution.1, term(2));
        }
        other => panic!("{other:?}"),
    }
}

#[test]
fn instances_without_members() {
    for failing in [false, true] {
        let (mut state, _types, prim) = setup();
        let class = (FILE, ty(5));
        let constraints = vec![prim.t, prim.partial];
        let instance = InstanceMembers { class, constraints, count: 0 };
        let progress = MembersProgress::Superclasses.advance(
            &mut state,
            &instance,
            MembersAnswer::Superclasses(vec![]),
        );
        assert!(matches!(progress, MembersProgress::Failing { index: 0, .. }));
        let progress =
            progress.advance(&mut state, &instance, MembersAnswer::Failing(false));
        assert!(matches!(progress, MembersProgress::Failing { index: 1, .. }));
        let progress =
            progress.advance(&mut state, &instance, MembersAnswer::Failing(failing));
        let progress = progress.advance(&mut state, &instance, MembersAnswer::Names(names()));
        assert!(matches!(progress, MembersProgress::Solve { .. }));
        if failing {
            assert!(state.checked.errors.is_empty());
        } else {
            match &state.checked.errors[0].kind {
                ErrorKind::MissingInstanceMembers { members } => {
                    assert_eq!(*members, vec!["one", "two"]);
                }
                other => panic!("{other:?}"),
            }
        }
    }
}

#[test]
fn equations_of_types() {
    let (_, mut types, prim) = setup();
    let data = TypeEquation::Data {
        newtype: false,
        constructors: vec![(term(1), vec![source(1), source(2)]), (term(2), vec![source(3)])],
        roles: vec![],
    };
    assert_eq!(declared_result(&data, &prim), Some(prim.t));
    let checks = equation_checks(&data, &prim, prim.boolean);
    assert_eq!(checks.len(), 3);
    assert_eq!((checks[1].source_id, checks[1].expected), (source(2), prim.t));
    assert_eq!(checks[1].crumb, Some(ErrorCrumb::ConstructorArgument(source(2))));
    let mut scc = TypeSccState::new();
    let checked = vec![prim.t, prim.boolean, prim.partial];
    record_equation(&mut types, &mut scc, ty(1), vec![], data, &checked);
    assert_eq!(
        scc.data[0].constructors,
        vec![(term(1), vec![prim.t, prim.boolean]), (term(2), vec![prim.partial])]
    );
    assert_eq!(constructor_arguments(&scc.data[0].constructors), checked);
    let swapped = vec![prim.partial, prim.t, prim.boolean];
    assert_eq!(
        with_arguments(&scc.data[0].constructors, &swapped),
        vec![(term(1), vec![prim.partial, prim.t]), (term(2), vec![prim.boolean])]
    );
    let synonym = TypeEquation::Synonym { synonym: Some(source(5)) };
    assert_eq!(declared_result(&synonym, &prim), None);
    assert_eq!(equation_checks(&synonym, &prim, prim.record)[0].expected, prim.record);
    record_equation(&mut types, &mut scc, ty(2), vec![], synonym, &vec![prim.record]);
    assert_eq!(scc.synonyms[0].expansion, prim.record);
    let missing = TypeEquation::Synonym { synonym: None };
    record_equation(&mut types, &mut scc, ty(3), vec![], missing, &vec![]);
    assert!(matches!(types.lookup_type(scc.synonyms[1].expansion), Type::Unknown(_)));
    let class = TypeEquation::Class {
        constraints: vec![source(6)],
        functional_dependencies: vec![],
        members: vec![(term(3), None), (term(4), Some(source(7)))],
    };
    let checks = equation_checks(&class, &prim, prim.constraint);
    let expected: Vec<_> = checks.iter().map(|check| (check.source_id, check.expected)).collect();
    assert_eq!(expected, vec![(source(6), prim.constraint), (source(7), prim.t)]);
    record_equation(&mut types, &mut scc, ty(4), vec![], class, &vec![prim.partial, prim.t]);
    assert_eq!(scc.classes[0].superclasses[0].constraint, prim.partial);
    assert_eq!(scc.classes[0].members, vec![(term(4), prim.t)]);
    let class = scc.classes.remove(0);
    assert_eq!(types_of_class(&class), vec![prim.partial, prim.t]);
    let zonked = vec![prim.record, prim.boolean];
    let resolved = resolve_class(class, prim.t, vec![], vec![], &zonked);
    assert_eq!(resolved.superclasses[0].source_id, source(6));
    assert_eq!(resolved.superclasses[0].constraint, prim.record);
    assert_eq!(resolved.members[0].field_type, prim.boolean);
}

fn binder(kind: TypeId) -> ForallBinder {
    let name = Name { file: FILE, unique: 1, scope: None };
    ForallBinder { visible: true, name, kind, scope: None }
}

#[test]
fn parameters_of_declarations() {
    let (mut state, mut types, prim) = setup();
    state.checked.type_item_kinds.put(1, prim.record);
    let progress = ParametersProgress::begin(&state, ty(1), Some(source(3)));
    assert!(matches!(progress, ParametersProgress::Expect { signature_kind, .. } if signature_kind == prim.record));
    let answer =
        ParametersAnswer::Signature { arguments: vec![prim.t], result: prim.boolean };
    let progress = progress.advance(&mut state, &mut types, &prim, ty(1), None, answer);
    let answer = ParametersAnswer::Binders(vec![binder(prim.t)]);
    let progress = progress.advance(&mut state, &mut types, &prim, ty(1), None, answer);
    assert!(matches!(progress, ParametersProgress::Done { result, .. } if result == prim.boolean));
    let progress = ParametersProgress::begin(&state, ty(2), Some(source(3)));
    let answer = ParametersAnswer::Binders(vec![binder(prim.t)]);
    let progress =
        progress.advance(&mut state, &mut types, &prim, ty(2), Some(prim.constraint), answer);
    assert!(matches!(progress, ParametersProgress::Done { result, .. } if result == prim.constraint));
    let kind = *state.checked.type_item_kinds.find(2).unwrap();
    assert_eq!(types.lookup_type(kind), Type::Function(prim.t, prim.constraint));
    let progress = ParametersProgress::begin(&state, ty(1), None);
    let answer = ParametersAnswer::Binders(vec![]);
    let progress = progress.advance(&mut state, &mut types, &prim, ty(1), None, answer);
    match progress {
        ParametersProgress::Relate { result, kind, expected, .. } => {
            assert_eq!((result, expected), (kind, prim.record));
            assert_eq!(types.lookup_type(result), Type::Unification(0));
        }
        other => panic!("{other:?}"),
    }
}

#[test]
fn kinds_settle_before_they_are_generalised() {
    let (mut state, _types, prim) = setup();
    state.checked.type_item_kinds.put(1, prim.t);
    state.checked.type_item_kinds.put(3, prim.boolean);
    let items = vec![ty(1), ty(2), ty(3)];
    let mut progress = KindsProgress::begin(&state, &items);
    let mut seen = vec![];
    loop {
        let answer = match &progress {
            KindsProgress::Zonk { index, known, .. } => {
                seen.push(format!("zonk {index}"));
                KindsAnswer::Kind(*known)
            }
            KindsProgress::Measure { .. } => {
                seen.push("measure".to_string());
                KindsAnswer::Unsolved(vec![])
            }
            KindsProgress::Generalise { item, .. } => {
                seen.push(format!("generalise {}", item.raw));
                KindsAnswer::Kind(prim.partial)
            }
            KindsProgress::Done => break,
        };
        progress = progress.advance(&mut state, &items, answer);
    }
    assert_eq!(
        seen,
        vec!["zonk 0", "measure", "zonk 2", "measure", "generalise 1", "generalise 3"]
    );
    assert_eq!(state.checked.type_item_kinds.find(3), Some(&prim.partial));
    assert!(state.checked.type_item_kinds.find(2).is_none());
}

#[test]
fn roles_come_before_declarations() {
    let (mut state, mut types, prim) = setup();
    state.checked.type_item_kinds.put(1, prim.t);
    state.checked.type_item_kinds.put(3, prim.boolean);
    let data = || TypeEquation::Data { newtype: false, constructors: vec![], roles: vec![] };
    let mut scc = TypeSccState::new();
    record_equation(&mut types, &mut scc, ty(2), vec![], data(), &vec![]);
    record_equation(&mut types, &mut scc, ty(1), vec![], data(), &vec![]);
    let synonym = TypeEquation::Synonym { synonym: None };
    record_equation(&mut types, &mut scc, ty(3), vec![], synonym, &vec![]);
    scc.foreign.push(PendingForeign { item: ty(3), roles: vec![] });
    assert_eq!(
        type_finalise_steps(&state, &scc),
        vec![
            FinaliseStep::DataRoles { index: 0 },
            FinaliseStep::DataRoles { index: 1 },
            FinaliseStep::ForeignRoles { index: 0, kind: prim.boolean },
            FinaliseStep::Data { index: 1, kind: prim.t },
            FinaliseStep::Synonym { index: 0, kind: prim.boolean },
        ]
    );
}

#[test]
fn scopes_without_a_place_stay_empty() {
    let (mut state, _types, _prim) = setup();
    let crumb = ErrorCrumb::CheckingDoLet(source(4));
    state.with_error_crumb(crumb, |inner| inner.crumbs.clear());
    assert!(state.crumbs.is_empty());
}

#[test]
fn a_function_takes_its_type_apart_binder_by_binder() {
    let (mut state, mut types, prim) = setup();
    let binder = |raw, type_id| {
        LambdaAnswer::Binder(ElaboratedBinder { type_id, binder: BinderId { raw } })
    };
    // The first argument comes out of the type, as it is.
    let arrow = types.intern_function(prim.t, prim.boolean);
    let progress = LambdaProgress::begin(arrow, 2);
    assert!(matches!(&progress, LambdaProgress::Decompose { parts } if parts.remaining == arrow));
    let taken = LambdaAnswer::Decomposed(Some((prim.t, prim.boolean)));
    let progress = progress.advance(&mut state, &mut types, &prim, 2, taken);
    assert!(matches!(&progress, LambdaProgress::Instantiable { argument, .. }
        if *argument == prim.t));
    let plain = LambdaAnswer::Instantiable(false);
    let progress = progress.advance(&mut state, &mut types, &prim, 2, plain);
    assert_eq!(progress.position(), 0);
    let progress = progress.advance(&mut state, &mut types, &prim, 2, binder(4, prim.t));
    // What is left is expanded, and has to be a function of its own.
    assert_eq!(progress.position(), 1);
    assert!(matches!(&progress, LambdaProgress::Expand { parts }
        if parts.remaining == prim.boolean));
    let expanded = LambdaAnswer::Type(prim.boolean);
    let progress = progress.advance(&mut state, &mut types, &prim, 2, expanded);
    let unknown = LambdaAnswer::Decomposed(None);
    let progress = progress.advance(&mut state, &mut types, &prim, 2, unknown);
    let LambdaProgress::Relate { argument, function, expected, .. } = &progress else {
        panic!("a new function type");
    };
    let argument = *argument;
    assert_eq!(*expected, prim.boolean);
    assert_eq!(types.lookup_type(argument), Type::Unification(0));
    let Type::Function(first, result) = types.lookup_type(*function) else {
        panic!("a function type");
    };
    assert_eq!(first, argument);
    let related = LambdaAnswer::Related;
    let progress = progress.advance(&mut state, &mut types, &prim, 2, related);
    let progress = progress.advance(&mut state, &mut types, &prim, 2, binder(5, argument));
    assert!(matches!(&progress, LambdaProgress::Body { .. }));
    let parts = progress.into_parts();
    assert_eq!(parts.arguments, vec![prim.t, argument]);
    assert_eq!(parts.binders, vec![BinderId { raw: 4 }, BinderId { raw: 5 }]);
    assert_eq!(parts.remaining, result);
}

#[test]
fn a_function_stops_in_front_of_a_constraint() {
    let (mut state, mut types, prim) = setup();
    let constrained = types.intern_type(Type::Constrained(prim.partial, prim.t));
    let arrow = types.intern_function(prim.t, constrained);
    let mut progress = LambdaProgress::begin(arrow, 2);
    let checked = ElaboratedBinder { type_id: prim.boolean, binder: BinderId { raw: 1 } };
    for answer in vec![
        LambdaAnswer::Decomposed(Some((prim.t, constrained))),
        LambdaAnswer::Instantiable(true),
        LambdaAnswer::Type(prim.boolean),
        LambdaAnswer::Binder(checked),
        LambdaAnswer::Type(constrained),
    ] {
        progress = progress.advance(&mut state, &mut types, &prim, 2, answer);
    }
    assert!(matches!(&progress, LambdaProgress::Body { .. }));
    let parts = progress.into_parts();
    assert_eq!(parts.arguments, vec![prim.boolean]);
    assert_eq!(parts.remaining, constrained);
    // Without binders there is nothing to take apart.
    assert!(matches!(LambdaProgress::begin(arrow, 0), LambdaProgress::Body { .. }));
}

#[test]
fn a_case_expression_goes_branch_by_branch() {
    let (mut state, _types, prim) = setup();
    let trunk = vec![source(1)];
    let branches = vec![
        CaseBranch { binders: vec![source(2), source(3)], has_guarded: true },
        CaseBranch { binders: vec![], has_guarded: false },
    ];
    let mode = ExpressionMode::Infer;
    let mut progress = CaseProgress::new();
    let next = |progress: &CaseProgress| progress.step(&trunk, &branches, mode, prim.t);
    assert_eq!(next(&progress), CaseStep::Infer { expression: source(1) });
    let scrutinee = integer(&mut state, 1, prim.boolean);
    progress.push_scrutinee(scrutinee);
    assert_eq!(next(&progress), CaseStep::Instantiate);
    progress.instantiate(vec![prim.partial]);
    // The second binder has no column.
    let check = CaseStep::CheckBinder { binder: source(2), expected: prim.partial };
    assert_eq!(next(&progress), check);
    progress.push_binder(BinderId { raw: 7 });
    let body = GuardedExpressionMode::Subsume { expected: prim.t };
    assert_eq!(next(&progress), CaseStep::CheckBody { branch: 0, mode: body });
    let body = GuardedExpressionMode::Check { expected: prim.t };
    assert_eq!(
        progress.step(&trunk, &branches, ExpressionMode::Check { expected: prim.t }, prim.t),
        CaseStep::CheckBody { branch: 0, mode: body }
    );
    let guarded = missing_guarded_expression(&mut state, prim.t);
    progress.push_body(&mut state, Some(guarded), prim.t);
    // Nothing stands behind the second branch.
    assert_eq!(next(&progress), CaseStep::MissingBody);
    progress.push_body(&mut state, None, prim.t);
    assert_eq!(next(&progress), CaseStep::Done);
    assert_eq!(progress.scrutinees, vec![scrutinee.expression]);
    assert_eq!(progress.alternatives.len(), 2);
    assert_eq!(progress.alternatives[0].binders, vec![BinderId { raw: 7 }]);
    assert!(progress.alternatives[1].binders.is_empty());
    let missing = &progress.alternatives[1].guarded_expression.alternatives[0];
    assert_eq!(missing.where_expression.expression, ExpressionId { raw: 2 });
}
