use compiler_frontend::checking::derive::checker::KnownClasses;
use compiler_frontend::checking::derive::field::{find_row_field, FieldType, RowField};
use compiler_frontend::checking::derive::generate::{
    delegated_member, generate_delegate_instance, generate_delegated_member, generate_instance,
    generate_known_instance, give_instance_evidence, request_members, single_member,
    DeriveDispatch, DeriveHead, DeriveStrategy, FunctorKind, InstanceRequest, MembersRequest,
};
use compiler_frontend::checking::derive::generic::{
    generate_from, generate_to, instantiate_representation, resolve_generic_member,
    ConstructorShape, KnownGeneric,
};
use compiler_frontend::checking::derive::plan::{
    Instruction, KnownTerms, Plan, PlanId, PlanType,
};
use compiler_frontend::checking::derive::recipe::{
    generate_variance_constraints, ConstructorFields, DerivedData,
};
use compiler_frontend::checking::derive::replay::{perform, Made, Performed};
use compiler_frontend::checking::derive::variance::{
    report_issues, select_rigids, BinaryApplicationArguments, ClassReference, ConstructorRecipe,
    DerivedRigids, EmittedConstraint, FunctionPolicy, HeadArgument, HeadKind, InstanceHead,
    ParameterConfig, RecordFieldRecipe, TraversalOperation, TraversalParameter, TypeHead, Variance,
    VarianceConfig, VarianceFindings, VarianceIssue, VarianceRecipe,
};
use compiler_frontend::checking::derive::{contravariant, foldable, traversable};
use compiler_frontend::checking::error::ErrorKind;
use compiler_frontend::checking::evidence::Evidence;
use compiler_frontend::checking::lowering::TermVariableResolution;
use compiler_frontend::checking::state::CheckState;
use compiler_frontend::checking::terms::application::{allocate_expression, ElaboratedExpression};
use compiler_frontend::checking::tree::{
    BinderKind, BinderSource, ExpressionKind, InstanceImplementation, TermDeclarationKind,
    VariableResolution,
};
use compiler_frontend::checking::types::{FileId, Name, Type, TypeId, Types};
use compiler_frontend::indexing::items::{TermItemId, TypeItemId};
use compiler_frontend::indexing::source::AstId;

const FILE: FileId = FileId { raw: 1 };

fn t(raw: usize) -> TypeId {
    TypeId { raw }
}

fn term(raw: u32) -> TermItemId {
    TermItemId { raw }
}

fn known(raw: u32) -> Option<(FileId, TermItemId)> {
    Some((FILE, term(raw)))
}

fn class(raw: u32) -> ClassReference {
    ClassReference { file: FILE, item: TypeItemId { raw } }
}

fn name(unique: u32) -> Name {
    Name { file: FILE, unique, scope: None }
}

fn rigid(id: usize, unique: u32) -> FieldType {
    FieldType::Rigid { id: t(id), name: name(unique) }
}

fn constructor(id: usize, raw: u32) -> FieldType {
    FieldType::Constructor { id: t(id), file: FILE, item: TypeItemId { raw } }
}

fn other(id: usize) -> FieldType {
    FieldType::Other { id: t(id), rigids: vec![] }
}

fn applied(id: usize, function: FieldType, argument: FieldType) -> FieldType {
    FieldType::Application { id: t(id), function: Box::new(function), argument: Box::new(argument) }
}

fn function(id: usize, argument: FieldType, result: FieldType) -> FieldType {
    FieldType::Function { id: t(id), argument: Box::new(argument), result: Box::new(result) }
}

fn parameter() -> TraversalOperation {
    TraversalOperation::Parameter { parameter: TraversalParameter::First }
}

fn known_terms() -> KnownTerms {
    KnownTerms {
        map: known(1),
        apply: known(2),
        pure: known(3),
        cmap: known(4),
        bimap: known(5),
        dimap: known(6),
        foldr: known(7),
        foldl: known(8),
        fold_map: known(9),
        bifoldr: known(10),
        bifoldl: known(11),
        bifold_map: known(12),
        append: known(13),
        mempty: known(14),
        traverse: known(15),
        sequence: known(16),
        bitraverse: known(17),
        bisequence: known(18),
        eq: known(19),
        compare: known(20),
    }
}

/// The terms and patterns of a plan, by their names and numbers.
fn shown(plan: &Plan, id: PlanId) -> String {
    let all = |ids: &Vec<PlanId>| -> Vec<String> { ids.iter().map(|id| shown(plan, *id)).collect() };
    match &plan.instructions()[id.raw] {
        Instruction::Binder { name, .. } => name.clone(),
        Instruction::Variable { binder } => shown(plan, *binder),
        Instruction::Reference { resolution } => match resolution.1.raw {
            1 => "map".to_string(),
            2 => "apply".to_string(),
            3 => "pure".to_string(),
            4 => "cmap".to_string(),
            6 => "dimap".to_string(),
            7 => "foldr".to_string(),
            8 => "foldl".to_string(),
            9 => "foldMap".to_string(),
            13 => "append".to_string(),
            14 => "mempty".to_string(),
            15 => "traverse".to_string(),
            other => format!("t{other}"),
        },
        Instruction::Apply { function, argument } => {
            format!("({} {})", shown(plan, *function), shown(plan, *argument))
        }
        Instruction::Subtype { expression, .. } => shown(plan, *expression),
        Instruction::Lambda { binders, body, .. } => {
            format!("(\\{} -> {})", all(binders).join(" "), shown(plan, *body))
        }
        Instruction::RecordAccess { record, label, .. } => {
            format!("{}.{label}", shown(plan, *record))
        }
        Instruction::RecordUpdate { record, updates, .. } => {
            let updates: Vec<String> =
                updates.iter().map(|(label, id)| format!("{label} = {}", shown(plan, *id))).collect();
            format!("{} {{ {} }}", shown(plan, *record), updates.join(", "))
        }
        Instruction::ConstructorPattern { resolution, arguments, .. } => {
            let arguments = all(arguments);
            let separator = if arguments.is_empty() { "" } else { " " };
            format!("(C{}{separator}{})", resolution.1.raw, arguments.join(" "))
        }
        Instruction::WildcardPattern { .. } => "_".to_string(),
        Instruction::Alternative { pattern, body } => {
            format!("{} -> {}", shown(plan, *pattern), shown(plan, *body))
        }
        Instruction::Case { scrutinee, alternatives, .. } => {
            format!("case {} of [{}]", shown(plan, *scrutinee), all(alternatives).join("; "))
        }
    }
}

/// Every instruction refers to earlier ones only.
fn in_order(plan: &Plan) -> bool {
    plan.instructions().iter().enumerate().all(|(position, instruction)| {
        let used = match instruction {
            Instruction::Apply { function, argument } => vec![*function, *argument],
            Instruction::Variable { binder } => vec![*binder],
            Instruction::Subtype { expression, .. } => vec![*expression],
            Instruction::Lambda { binders, body, .. } => {
                binders.iter().copied().chain([*body]).collect()
            }
            Instruction::Case { scrutinee, alternatives, .. } => {
                alternatives.iter().copied().chain([*scrutinee]).collect()
            }
            Instruction::Alternative { pattern, body } => vec![*pattern, *body],
            _ => vec![],
        };
        used.iter().all(|id| id.raw < position)
    })
}

/// What the steps make, with every reference of one type and every application of it.
fn replayed(plan: &Plan, state: &mut CheckState, types: &mut Types) -> Option<Vec<Made>> {
    let derive = AstId { raw: 5 };
    let mut made = vec![];
    for instruction in plan.instructions() {
        let next = match perform(state, types, derive, &made, instruction) {
            Performed::Made { made: next } => next,
            Performed::Reference { resolution } => {
                let kind = ExpressionKind::Variable {
                    resolution: VariableResolution::Source(TermVariableResolution::Reference(
                        resolution.0,
                        resolution.1,
                    )),
                };
                let expression = allocate_expression(state, t(77), kind);
                Made::Expression { expression }
            }
            Performed::Apply { function, argument } => {
                let kind = ExpressionKind::TermApplication {
                    function: function.expression,
                    argument: argument.expression,
                };
                let expression = allocate_expression(state, t(78), kind);
                Made::Expression { expression }
            }
            Performed::Subtype { expression, expected } => Made::Expression {
                expression: ElaboratedExpression { type_id: expected, ..expression },
            },
            Performed::Missing => return None,
        };
        made.push(next);
    }
    Some(made)
}

fn replays(plan: &Plan) -> bool {
    let made = replayed(plan, &mut CheckState::new(FILE), &mut Types::new());
    made.is_some_and(|made| made.len() == plan.len())
}

fn functor() -> VarianceConfig {
    VarianceConfig::Single {
        parameter: ParameterConfig {
            variance: Variance::Covariant,
            unary_class: Some(class(1)),
            function_policy: FunctionPolicy::Allow,
        },
        binary_class: None,
    }
}

fn data(config: VarianceConfig, fields: Vec<FieldType>) -> DerivedData {
    DerivedData {
        derived_type: t(0),
        config,
        record: t(90),
        known: KnownClasses {
            functor: Some(class(1)),
            bifunctor: Some(class(2)),
            contravariant: Some(class(3)),
            profunctor: Some(class(4)),
        },
        heads: vec![InstanceHead {
            class: class(1),
            arguments: vec![HeadArgument::Type(TypeHead {
                id: t(33),
                kind: HeadKind::Constructor(FILE, TypeItemId { raw: 7 }),
            })],
        }],
        constructors: vec![ConstructorFields {
            constructor_id: term(30),
            names: vec![name(1)],
            fields,
        }],
    }
}

#[test]
fn recipes_for_functors() {
    let fields = vec![
        rigid(1, 1),
        other(2),
        applied(5, constructor(3, 7), rigid(1, 1)),
        function(6, other(2), rigid(1, 1)),
    ];
    let (recipe, findings) = generate_variance_constraints(&data(functor(), fields));
    assert!(recipe.valid);
    assert!(findings.valid);
    assert_eq!(findings.issues, vec![]);
    assert_eq!(
        findings.constraints,
        vec![EmittedConstraint { class: class(1), argument: t(3) }]
    );
    assert_eq!(recipe.constructors.len(), 1);
    assert_eq!(recipe.constructors[0].constructor_id, term(30));
    let fields = &recipe.constructors[0].fields;
    assert!(matches!(fields[0], Some(TraversalOperation::Parameter { .. })));
    assert!(fields[1].is_none());
    assert!(matches!(
        &fields[2],
        Some(TraversalOperation::UnaryApplication {
            argument_variance: Variance::Covariant,
            argument,
        }) if matches!(**argument, TraversalOperation::Parameter { .. })
    ));
    assert!(matches!(
        &fields[3],
        Some(TraversalOperation::Function { argument: None, result: Some(_) })
    ));
}

#[test]
fn functors_without_an_instance() {
    let fields = vec![applied(5, constructor(3, 8), rigid(1, 1))];
    let (recipe, findings) = generate_variance_constraints(&data(functor(), fields));
    assert!(!recipe.valid);
    assert_eq!(findings.issues, vec![VarianceIssue::CannotDeriveForType(t(5))]);
}

#[test]
fn contravariant_occurrences() {
    let field = || vec![function(6, rigid(1, 1), other(2))];
    let (recipe, findings) = generate_variance_constraints(&data(functor(), field()));
    assert!(!recipe.valid);
    assert!(!findings.valid);
    assert_eq!(findings.issues, vec![VarianceIssue::ContravariantOccurrence(t(1))]);
    let config = VarianceConfig::Single {
        parameter: ParameterConfig {
            variance: Variance::Contravariant,
            unary_class: Some(class(3)),
            function_policy: FunctionPolicy::Allow,
        },
        binary_class: None,
    };
    let (recipe, findings) = generate_variance_constraints(&data(config, field()));
    assert!(recipe.valid);
    assert_eq!(findings.issues, vec![]);
    let (_, findings) = generate_variance_constraints(&data(config, vec![rigid(1, 1)]));
    assert_eq!(findings.issues, vec![VarianceIssue::CovariantOccurrence(t(1))]);
    // Below two functions, the parameter is covariant again.
    let twice = function(8, function(6, rigid(1, 1), other(2)), other(2));
    let (recipe, _) = generate_variance_constraints(&data(functor(), vec![twice]));
    assert!(recipe.valid);
}

#[test]
fn rejected_functions() {
    let config = VarianceConfig::Single {
        parameter: ParameterConfig {
            variance: Variance::Covariant,
            unary_class: Some(class(1)),
            function_policy: FunctionPolicy::Reject,
        },
        binary_class: None,
    };
    let fields = vec![function(6, other(2), rigid(1, 1))];
    let (recipe, findings) = generate_variance_constraints(&data(config, fields));
    assert!(!recipe.valid);
    assert_eq!(findings.issues, vec![VarianceIssue::CannotDeriveForType(t(6))]);
}

#[test]
fn parameters() {
    let names = vec![name(1), name(2), name(3)];
    match select_rigids(functor(), &names) {
        DerivedRigids::Single { parameter, .. } => assert_eq!(parameter.name, name(3)),
        other => panic!("{other:?}"),
    }
    assert!(matches!(select_rigids(functor(), &vec![]), DerivedRigids::Invalid));
    assert_eq!(Variance::Covariant.flip(), Variance::Contravariant);
    assert_eq!(Variance::Covariant.flip().flip(), Variance::Covariant);
}

#[test]
fn issues_are_reported() {
    let mut state = CheckState::new(FILE);
    let mut findings = VarianceFindings::new();
    assert!(findings.valid);
    findings.reject(t(4));
    assert!(!findings.emit_variance_error(t(5), Variance::Contravariant, Variance::Covariant));
    findings.note(t(6), Variance::Covariant, Variance::Contravariant);
    assert!(!findings.valid);
    findings.issues.push(VarianceIssue::DeriveMissingFunctor);
    report_issues(&mut state, &findings.issues);
    let errors = &state.checked.errors;
    assert_eq!(errors.len(), 4);
    assert!(matches!(errors[0].kind, ErrorKind::CannotDeriveForType { type_id } if type_id == t(4)));
    assert!(matches!(errors[1].kind, ErrorKind::ContravariantOccurrence { .. }));
    assert!(matches!(errors[2].kind, ErrorKind::CovariantOccurrence { .. }));
    assert!(matches!(errors[3].kind, ErrorKind::DeriveMissingFunctor));
}

#[test]
fn field_types() {
    let row = FieldType::Row {
        id: t(8),
        fields: vec![
            RowField { label: "a".to_string(), field: rigid(1, 1) },
            RowField { label: "b".to_string(), field: other(2) },
        ],
        tail: None,
    };
    let record = applied(9, constructor(90, 0), row);
    assert!(record.contains_rigid(name(1)));
    assert!(!record.contains_rigid(name(2)));
    let (head, row) = record.decompose_type_application().unwrap();
    assert_eq!(head.id(), t(90));
    assert!(row.extract_record_row().is_none());
    let fields = record.extract_record_row().unwrap();
    assert_eq!(find_row_field(fields, "b").unwrap().id(), t(2));
    assert!(find_row_field(fields, "c").is_none());
    assert!(record.decompose_function().is_none());
    let curried = applied(12, applied(11, constructor(10, 5), rigid(1, 1)), other(2));
    assert_eq!(curried.type_head().id(), t(10));
}

fn recipe(fields: Vec<Option<TraversalOperation>>) -> VarianceRecipe {
    VarianceRecipe {
        constructors: vec![ConstructorRecipe { constructor_id: term(30), fields }],
        valid: true,
    }
}

fn unary(argument_variance: Variance) -> TraversalOperation {
    TraversalOperation::UnaryApplication { argument_variance, argument: Box::new(parameter()) }
}

fn list(id: usize, element: FieldType) -> FieldType {
    applied(id, constructor(3, 7), element)
}

fn folded(operation: foldable::FoldOperation) -> String {
    let arguments = match operation {
        foldable::FoldOperation::MapEach => vec![t(20), t(0)],
        _ => vec![t(20), t(21), t(0)],
    };
    let kind = foldable::TraversalKind::Foldable;
    assert_eq!(foldable::fold_argument_count(kind, operation), arguments.len());
    let member = foldable::decode(kind, operation, &arguments, t(21), t(40), FILE).unwrap();
    let recipe = recipe(vec![Some(parameter()), None, Some(unary(Variance::Covariant))]);
    let sources = vec![vec![rigid(1, 1), other(2), list(5, rigid(1, 1))]];
    let mut plan = Plan::new();
    let fold = foldable::emit_variance_fold(
        &mut plan,
        member,
        &recipe,
        &sources,
        operation,
        known_terms(),
    );
    assert!(in_order(&plan));
    assert!(replays(&plan));
    shown(&plan, fold.unwrap())
}

#[test]
fn right_folds() {
    let fold = folded(foldable::FoldOperation::Right);
    assert_eq!(fold, "(\\function accumulator value -> case value of [(C30 field0 field1 field2) -> ((function field0) (((foldr (\\element accumulator -> ((function element) accumulator))) accumulator) field2))])");
}

#[test]
fn left_folds() {
    let fold = folded(foldable::FoldOperation::Left);
    assert_eq!(fold, "(\\function accumulator value -> case value of [(C30 field0 field1 field2) -> (((foldl (\\accumulator element -> ((function accumulator) element))) ((function accumulator) field0)) field2)])");
}

#[test]
fn mapping_folds() {
    let fold = folded(foldable::FoldOperation::MapEach);
    assert_eq!(fold, "(\\function value -> case value of [(C30 field0 field1 field2) -> ((append (function field0)) ((foldMap (\\element -> (function element))) field2))])");
}

#[test]
fn traversals() {
    let kind = traversable::TraversalKind::Traversable;
    let arguments = vec![t(20), t(0)];
    assert_eq!(traversable::traversal_argument_count(kind), 2);
    let applied_result = Some((t(50), t(60)));
    let member =
        traversable::decode(kind, &arguments, t(61), applied_result, t(40), FILE).unwrap();
    let recipe = recipe(vec![Some(parameter()), None, Some(unary(Variance::Covariant))]);
    let types = vec![contravariant::FieldTypes {
        sources: vec![rigid(1, 1), other(2), list(5, rigid(1, 1))],
        targets: vec![rigid(11, 2), other(2), list(15, rigid(11, 2))],
    }];
    let mut plan = Plan::new();
    let traversal =
        traversable::emit_variance_traversal(&mut plan, member, &recipe, &types, known_terms());
    assert!(in_order(&plan));
    assert!(replays(&plan));
    assert_eq!(shown(&plan, traversal.unwrap()), "(\\function value -> case value of [(C30 field0 field1 field2) -> ((apply ((map (\\field0Result field2Result -> (((t30 field0Result) field1) field2Result))) (function field0))) ((traverse (\\element -> (function element))) field2))])");
    assert!(traversable::decode(kind, &vec![t(20)], t(61), applied_result, t(40), FILE).is_none());
}

#[test]
fn contravariant_maps() {
    let kind = contravariant::TraversalKind::Contravariant;
    let member =
        contravariant::decode(kind, &vec![t(20), t(0)], t(60), t(40), FILE).unwrap();
    let operation = TraversalOperation::Function {
        argument: Some(Box::new(parameter())),
        result: None,
    };
    let recipe = recipe(vec![Some(operation), Some(unary(Variance::Contravariant))]);
    let types = vec![contravariant::FieldTypes {
        sources: vec![function(6, rigid(1, 1), other(2)), list(5, rigid(1, 1))],
        targets: vec![function(16, rigid(11, 2), other(2)), list(15, rigid(11, 2))],
    }];
    let mut plan = Plan::new();
    let traversal =
        contravariant::emit_variance_traversal(&mut plan, member, &recipe, &types, known_terms());
    assert!(in_order(&plan));
    assert!(replays(&plan));
    assert_eq!(shown(&plan, traversal.unwrap()), "(\\function value -> case value of [(C30 field0 field1) -> ((t30 (\\argument -> (field0 (function argument)))) ((cmap (\\element -> (function element))) field1))])");
}

#[test]
fn profunctor_maps_of_records() {
    let kind = contravariant::TraversalKind::Profunctor;
    let arguments = vec![t(20), t(21), t(0)];
    let member = contravariant::decode(kind, &arguments, t(60), t(40), FILE).unwrap();
    let second = || TraversalOperation::Parameter { parameter: TraversalParameter::Second };
    let record = TraversalOperation::Record {
        fields: vec![RecordFieldRecipe { label: "x".to_string(), operation: second() }],
    };
    let binary = TraversalOperation::BinaryApplication {
        first_variance: Variance::Contravariant,
        arguments: BinaryApplicationArguments::Both {
            first: Box::new(parameter()),
            second: Box::new(second()),
        },
    };
    let recipe = recipe(vec![Some(record), Some(binary)]);
    let row = |id, field| FieldType::Row {
        id: t(id),
        fields: vec![RowField { label: "x".to_string(), field }],
        tail: None,
    };
    let pair = |id, first, second| applied(id + 1, applied(id, constructor(3, 7), first), second);
    let types = vec![contravariant::FieldTypes {
        sources: vec![
            applied(9, constructor(90, 0), row(8, rigid(2, 2))),
            pair(70, rigid(1, 1), rigid(2, 2)),
        ],
        targets: vec![
            applied(19, constructor(90, 0), row(18, rigid(12, 4))),
            pair(80, rigid(11, 3), rigid(12, 4)),
        ],
    }];
    let mut plan = Plan::new();
    let traversal =
        contravariant::emit_variance_traversal(&mut plan, member, &recipe, &types, known_terms());
    assert_eq!(shown(&plan, traversal.unwrap()), "(\\firstFunction secondFunction value -> case value of [(C30 field0 field1) -> ((t30 field0 { x = (secondFunction field0.x) }) (((dimap (\\element -> (firstFunction element))) (\\element -> (secondFunction element))) field1))])");
    let missing = KnownTerms { dimap: None, ..known_terms() };
    let mut plan = Plan::new();
    let traversal =
        contravariant::emit_variance_traversal(&mut plan, member, &recipe, &types, missing);
    assert!(traversal.is_none());
}

fn known_generic() -> KnownGeneric {
    let value = |raw| (FILE, term(raw));
    KnownGeneric {
        no_constructors: t(101),
        sum: t(102),
        constructor: t(103),
        no_arguments: t(104),
        argument: t(105),
        product: t(106),
        in_left: value(201),
        in_right: value(202),
        constructor_value: value(203),
        no_arguments_value: value(204),
        argument_value: value(205),
        product_value: value(206),
        to: value(207),
        from: value(208),
    }
}

fn at(id: usize) -> FieldType {
    constructor(id, id as u32)
}

#[test]
fn generic_representations() {
    let known = known_generic();
    // Sum (Constructor "A" NoArguments)
    //     (Constructor "B" (Product (Argument x) (Argument y)))
    let first = applied(301, applied(300, at(103), other(110)), at(104));
    let argument = |id, inner| applied(id, at(105), other(inner));
    let product = applied(305, applied(304, at(106), argument(302, 8)), argument(303, 9));
    let second = applied(307, applied(306, at(103), other(111)), product);
    let sum = applied(309, applied(308, at(102), first), second);
    let shapes = vec![
        ConstructorShape { resolution: (FILE, term(30)), fields: vec![] },
        ConstructorShape { resolution: (FILE, term(31)), fields: vec![t(8), t(9)] },
    ];
    let generic = instantiate_representation(&known, t(0), &sum, &shapes).unwrap();
    assert_eq!(generic.constructors.len(), 2);
    let member = resolve_generic_member(t(40), &vec![t(309)], t(0)).unwrap();
    let mut plan = Plan::new();
    let to = generate_to(&mut plan, &known, &generic, member).unwrap();
    assert!(in_order(&plan));
    assert!(replays(&plan));
    assert_eq!(shown(&plan, to), "(\\representation -> case representation of [(C201 (C203 (C204))) -> t30; (C202 (C203 (C206 (C205 field0) (C205 field1)))) -> ((t31 field0) field1)])");
    let member = resolve_generic_member(t(41), &vec![t(0)], t(309)).unwrap();
    let mut plan = Plan::new();
    let from = generate_from(&mut plan, &known, &generic, member);
    assert!(in_order(&plan));
    assert!(replays(&plan));
    assert_eq!(shown(&plan, from), "(\\value -> case value of [(C30) -> (t201 (t203 t204)); (C31 field0 field1) -> (t202 (t203 ((t206 (t205 field0)) (t205 field1))))])");
    assert!(instantiate_representation(&known, t(0), &sum, &vec![]).is_none());
    assert!(resolve_generic_member(t(40), &vec![], t(0)).is_none());
}

#[test]
fn delegated_operations() {
    let mut plan = Plan::new();
    let body = generate_delegated_member(&mut plan, (FILE, term(19)), t(9));
    assert_eq!(shown(&plan, body), "t19");
    assert!(matches!(
        &plan.instructions()[body.raw],
        Instruction::Subtype { planned, .. } if planned.result == t(9)
    ));
    let kind = traversable::TraversalKind::Traversable;
    let operation = traversable::sequence_operation(kind, &known_terms());
    assert_eq!(operation, known_terms().traverse);
    let unknown = KnownTerms { sequence: None, ..known_terms() };
    assert_eq!(traversable::sequence_operation(kind, &unknown), None);
}

#[test]
fn steps_of_plans() {
    let mut state = CheckState::new(FILE);
    let mut types = Types::new();
    let mut plan = Plan::new();
    let binder = plan.variable_binder("value", t(1));
    let value = plan.variable(binder);
    let field = plan.variable_binder("field0", t(2));
    let pattern = plan.constructor_pattern("pattern", t(1), (FILE, term(30)), vec![field]);
    let body = plan.variable(field);
    let alternative = plan.alternative(pattern, body);
    let case = plan.case(t(2), value, vec![alternative]);
    let lambda = plan.unary_lambda(PlanType::arrow(t(1), t(2)), binder, case);
    let within = plan.subtype(lambda, PlanType::within(t(3), t(4)));
    let made = replayed(&plan, &mut state, &mut types).unwrap();
    let expression = |id: PlanId| match made[id.raw] {
        Made::Expression { expression } => expression,
        other => panic!("{other:?}"),
    };
    let bound = |id: PlanId| match made[id.raw] {
        Made::Binder { binder } => binder,
        other => panic!("{other:?}"),
    };
    let tree = &state.checked.tree;
    let source = tree.find_binder(bound(binder)).unwrap();
    assert_eq!(source.type_id, t(1));
    assert!(matches!(source.kind, BinderKind::Variable));
    assert!(matches!(
        source.source,
        BinderSource::Generated { derive: AstId { raw: 5 }, name }
            if types.lookup_smol_str(name).is_some_and(|text| text == "value")
    ));
    match &tree.find_binder(bound(pattern)).unwrap().kind {
        BinderKind::Constructor { resolution, arguments } => {
            assert_eq!(*resolution, (FILE, term(30)));
            assert_eq!(*arguments, vec![bound(field)]);
        }
        other => panic!("{other:?}"),
    }
    let variable = expression(value);
    assert_eq!(variable.type_id, t(1));
    assert!(matches!(
        tree.find_expression(variable.expression).unwrap().kind,
        ExpressionKind::Variable { resolution: VariableResolution::Generated(id) }
            if id == bound(binder)
    ));
    match &tree.find_expression(expression(case).expression).unwrap().kind {
        ExpressionKind::Case { scrutinees, alternatives } => {
            assert_eq!(*scrutinees, vec![variable.expression]);
            assert_eq!(alternatives[0].binders, vec![bound(pattern)]);
            let guarded = &alternatives[0].guarded_expression.alternatives[0];
            assert_eq!(guarded.where_expression.expression, expression(body).expression);
        }
        other => panic!("{other:?}"),
    }
    let function = expression(lambda);
    assert_eq!(types.lookup_type(function.type_id), Type::Function(t(1), t(2)));
    let function = expression(within);
    assert_eq!(types.lookup_type(function.type_id), Type::Application(t(3), t(4)));
    let derive = AstId { raw: 5 };
    let missing = Instruction::Variable { binder: PlanId { raw: 0 } };
    assert_eq!(
        perform(&mut state, &mut types, derive, &vec![], &missing),
        Performed::Missing
    );
}

#[test]
fn instances_by_strategy() {
    let strategy = DeriveStrategy::NewtypeDeriveConstraint { delegate_constraint: t(5) };
    assert_eq!(
        generate_instance(strategy, DeriveDispatch::Eq),
        InstanceRequest::Delegate { delegate_constraint: t(5) }
    );
    assert_eq!(
        generate_instance(DeriveStrategy::NewtypeClass, DeriveDispatch::Newtype),
        InstanceRequest::Known { dispatch: DeriveDispatch::Newtype }
    );
    let known = known_terms();
    let request = |dispatch| request_members(dispatch, true, &known);
    assert!(matches!(request(DeriveDispatch::Eq), MembersRequest::Eq));
    assert!(matches!(
        request(DeriveDispatch::Eq1),
        MembersRequest::Delegated { operation } if operation == known.eq
    ));
    assert!(matches!(
        request(DeriveDispatch::Bifunctor),
        MembersRequest::Functor(FunctorKind::Bifunctor)
    ));
    assert!(matches!(request(DeriveDispatch::Newtype), MembersRequest::NoMembers));
    assert!(matches!(
        request_members(DeriveDispatch::Functor, false, &known),
        MembersRequest::Nothing
    ));
}

#[test]
fn derived_instances() {
    let mut state = CheckState::new(FILE);
    let head = || DeriveHead {
        derive_id: AstId { raw: 3 },
        class: (FILE, TypeItemId { raw: 4 }),
        signature: t(6),
    };
    let evidences = give_instance_evidence(&mut state, &vec![t(7), t(8)], &vec![t(9), t(10)]);
    assert_eq!(evidences.len(), 2);
    assert!(matches!(evidences[1].evidence, Evidence::Given(binder) if binder.raw == 1));
    assert_eq!(state.checked.evidence.binders, vec![t(7), t(8)]);
    let declaration =
        generate_delegate_instance(&mut state, head(), vec![t(1)], evidences, t(5));
    assert_eq!(declaration.type_id, t(6));
    let TermDeclarationKind::Instance(instance) = declaration.kind else { panic!() };
    assert!(matches!(
        instance.implementation,
        InstanceImplementation::Delegate { constraint, .. } if constraint == t(5)
    ));
    assert!(generate_known_instance(head(), vec![], vec![], vec![], None).is_none());
    let declaration = generate_known_instance(head(), vec![], vec![], vec![], Some(vec![]));
    assert!(declaration.is_some());
    assert_eq!(single_member(FILE, &vec![term(3)]), known(3));
    assert_eq!(single_member(FILE, &vec![]), None);
    let strategy = DeriveStrategy::DelegateConstraint { constraint: t(5) };
    assert_eq!(
        delegated_member(strategy, known(19), FILE, &vec![term(3)]),
        Some(((FILE, term(19)), (FILE, term(3))))
    );
    assert_eq!(delegated_member(strategy, None, FILE, &vec![term(3)]), None);
}

#[test]
fn members_of_folds_and_traversals() {
    let known = known_terms();
    let operations = foldable::generate_fold_members(
        foldable::TraversalKind::Foldable,
        known,
        FILE,
        &vec![term(8), term(7), term(9)],
    );
    assert_eq!(
        operations,
        Some(vec![
            foldable::FoldOperation::Left,
            foldable::FoldOperation::Right,
            foldable::FoldOperation::MapEach,
        ])
    );
    let operations = foldable::generate_fold_members(
        foldable::TraversalKind::Foldable,
        known,
        FILE,
        &vec![term(99)],
    );
    assert_eq!(operations, None);
    let kinds = traversable::generate_traversal_members(
        traversable::TraversalKind::Traversable,
        known,
        FILE,
        &vec![term(16), term(15)],
    );
    assert_eq!(
        kinds,
        Some(vec![traversable::MemberKind::Sequence, traversable::MemberKind::Traverse])
    );
}
