use compiler_frontend::checking::derive::traversable::ApplicationArgument;
use compiler_frontend::checking::error::{ErrorCrumb, ErrorKind};
use compiler_frontend::checking::evidence::{EvidenceBinderId, EvidenceState};
use compiler_frontend::checking::lowering::SourceId;
use compiler_frontend::checking::order::{
    term_group_steps, type_item_steps, TermGroup, TermItemStep, TypeGroup, TypeItemStep,
};
use compiler_frontend::checking::state::{
    CanonicalConstraintId, CheckState, CheckedSuperclass, FunctionalDependency, RigidRenaming,
};
use compiler_frontend::checking::term_items::{
    begin_inferred_group, canonical_instance, check_instance_head, check_instance_member_group,
    check_member_signature, check_term_operator, check_value_group_core, constrained_value,
    emit_instance_superclass_constraints, finalise_value, freshen_instance_rigid,
    inherit_instance_kind_names, instance_crumb, instantiate_class_member_type, missing_members,
    pending_value, prepare_binding_group, record_instance, record_instance_member,
    record_term_signature, report_missing_members, report_unsatisfied, sort_members,
    term_signature, ClassInfo,
    ClassMemberName, ClassMemberType, ConstrainedType, GeneralisedParameter, InferredConstraint,
    MemberRequest, PendingValueGroup, Residual, SuperclassConstraint, TermItemShape, TermSccState,
    ValueGroupRequest,
};
use compiler_frontend::checking::terms::equations::{CheckedValueEquations, ElaboratedEquation};
use compiler_frontend::checking::tree::{
    ClassMember, DeclarationAbstraction, EquationSource, EquationSourceId, ExpressionId, GuardedExpression, InstanceMember,
    TermDeclarationKind, TypeDeclarationKind, WhereExpression,
};
use compiler_frontend::checking::type_items::{
    bind_type_variable, equation_request, finalise_class, finalise_data, inferred_kind,
    is_recursive_kind, nominal_roles, partition_type_items, populate_skipped_items,
    record_inferred_kind, record_roles, record_signature_kind, record_synonym,
    resolve_type_variable_binding, resolved_kind, signature_kind, synonym_expansion, type_head,
    type_signature, ApplyKinds, BindingRequest, EquationRequest, FoldAction, ResolvedClass,
    ResolvedData, TypeItemShape, TypeVariableBinding,
};
use compiler_frontend::checking::types::{
    Depth, FileId, ForallBinder, Name, Prim, Role, Type, TypeId, Types,
};
use compiler_frontend::indexing::items::{
    DeriveItemId, InstanceItemId, InstanceSourceItemId, TermItemId, TypeItemId,
};
use compiler_frontend::indexing::source::AstId;

const FILE: FileId = FileId { raw: 1 };

fn source(raw: u32) -> SourceId {
    SourceId { raw }
}

fn ty(raw: u32) -> TypeItemId {
    TypeItemId { raw }
}

fn term(raw: u32) -> TermItemId {
    TermItemId { raw }
}

fn name(unique: u32) -> Name {
    Name { file: FILE, unique, scope: None }
}

fn setup() -> (CheckState, Types, Prim) {
    let mut types = Types::new();
    let mut constructor = |raw: u32| types.intern_type(Type::Constructor(FILE, ty(100 + raw)));
    let prim = Prim {
        t: constructor(0),
        type_to_type: constructor(1),
        function: constructor(2),
        constraint: constructor(3),
        boolean: constructor(4),
        partial: constructor(5),
        record: constructor(6),
    };
    (CheckState::new(FILE), types, prim)
}

fn wanted(raw: u32) -> CanonicalConstraintId {
    CanonicalConstraintId { raw }
}

fn binder(unique: u32, kind: TypeId) -> ForallBinder {
    ForallBinder { visible: true, name: name(unique), kind, scope: None }
}

#[test]
fn groups_of_types_are_checked_in_order() {
    let cycles = vec![vec![ty(5)]];
    let groups = vec![
        TypeGroup { items: vec![ty(1), ty(5), ty(2)], recursive: true },
        TypeGroup { items: vec![ty(3)], recursive: false },
    ];
    assert_eq!(
        type_item_steps(&cycles, &groups),
        vec![
            TypeItemStep::Skip { items: vec![ty(5)] },
            TypeItemStep::Signature { item: ty(1) },
            TypeItemStep::Signature { item: ty(2) },
            TypeItemStep::Prepare { items: vec![ty(1), ty(2)] },
            TypeItemStep::Equation { item: ty(1) },
            TypeItemStep::Equation { item: ty(2) },
            TypeItemStep::Finalise { items: vec![ty(1), ty(2)] },
            TypeItemStep::Skip { items: vec![] },
            TypeItemStep::Signature { item: ty(3) },
            TypeItemStep::Equation { item: ty(3) },
            TypeItemStep::Finalise { items: vec![ty(3)] },
        ]
    );
    assert_eq!(type_item_steps(&cycles, &vec![]), vec![]);
}

#[test]
fn groups_of_values_are_checked_in_order() {
    let group = TermGroup { items: vec![term(1), term(2)], recursive: true };
    assert_eq!(
        term_group_steps(&group),
        vec![
            TermItemStep::Signature { item: term(1) },
            TermItemStep::Signature { item: term(2) },
            TermItemStep::Prepare { items: vec![term(1), term(2)] },
            TermItemStep::Equation { item: term(1) },
            TermItemStep::Equation { item: term(2) },
            TermItemStep::Finalise { items: vec![term(1), term(2)], recursive: true },
        ]
    );
    let group = TermGroup { items: vec![term(1)], recursive: false };
    assert_eq!(term_group_steps(&group).len(), 3);
}

#[test]
fn recursive_kinds_are_skipped() {
    let cycles = vec![vec![ty(1), ty(2)], vec![ty(5)]];
    assert!(is_recursive_kind(&cycles, ty(2)));
    assert!(!is_recursive_kind(&cycles, ty(3)));
    let (items, skipped) = partition_type_items(&cycles, &vec![ty(5), ty(3), ty(1), ty(4)]);
    assert_eq!(items, vec![ty(3), ty(4)]);
    assert_eq!(skipped, vec![ty(5), ty(1)]);
    let (mut state, mut types, prim) = setup();
    record_signature_kind(&mut state, ty(1), prim.t);
    populate_skipped_items(&mut state, &mut types, &skipped);
    let kind = |raw| *state.checked.type_item_kinds.find(raw).unwrap();
    assert!(matches!(types.lookup_type(kind(5)), Type::Unknown(_)));
    assert!(matches!(types.lookup_type(kind(1)), Type::Unknown(_)));
    assert!(state.checked.type_item_kinds.find(3).is_none());
}

#[test]
fn type_signatures() {
    let (mut state, _types, prim) = setup();
    let signature = Some(source(4));
    assert_eq!(type_signature(TypeItemShape::Data { signature }), signature);
    assert_eq!(type_signature(TypeItemShape::Foreign { signature: None }), None);
    assert_eq!(type_signature(TypeItemShape::Operator), None);
    assert_eq!(equation_request(&state, ty(0), signature), EquationRequest::Infer);
    record_signature_kind(&mut state, ty(0), prim.t);
    assert_eq!(
        equation_request(&state, ty(0), signature),
        EquationRequest::Check { signature: source(4), signature_kind: prim.t }
    );
    assert_eq!(equation_request(&state, ty(0), None), EquationRequest::Infer);
    assert_eq!(record_inferred_kind(&mut state, ty(0), prim.boolean), Some(prim.t));
    assert_eq!(record_inferred_kind(&mut state, ty(1), prim.boolean), None);
    assert_eq!(state.checked.type_item_kinds.find(1), Some(&prim.boolean));
}

#[test]
fn type_variables() {
    let (mut state, mut types, prim) = setup();
    assert_eq!(
        resolve_type_variable_binding(Some(prim.t), Some(source(2))),
        BindingRequest::Infer { signature_kind: prim.t, binding_kind: source(2) }
    );
    assert_eq!(
        resolve_type_variable_binding(Some(prim.t), None),
        BindingRequest::Signature { signature_kind: prim.t }
    );
    assert_eq!(
        resolve_type_variable_binding(None, Some(source(2))),
        BindingRequest::Check { binding_kind: source(2) }
    );
    assert_eq!(resolve_type_variable_binding(None, None), BindingRequest::Fresh);
    assert_eq!(resolved_kind(&mut types, true, prim.t), prim.t);
    let invalid = resolved_kind(&mut types, false, prim.t);
    assert!(matches!(types.lookup_type(invalid), Type::Unknown(_)));
    let binding = TypeVariableBinding { id: source(7), visible: true, kind: None };
    let bound = bind_type_variable(&mut state, &mut types, binding, name(3), "a", prim.t);
    assert_eq!(bound, binder(3, prim.t));
    let text = state.checked.names.lookup(name(3)).unwrap();
    assert_eq!(types.lookup_smol_str(text).unwrap(), "a");
    assert_eq!(state.checked.forall_bindings.find(7), Some(&prim.t));
    assert_eq!(signature_kind(&vec![prim.t], 0), Some(prim.t));
    assert_eq!(signature_kind(&vec![prim.t], 1), None);
    let binders = vec![binder(1, prim.t), binder(2, prim.boolean)];
    let kind = inferred_kind(&mut types, &binders, prim.constraint);
    let Type::Function(first, rest) = types.lookup_type(kind) else { panic!() };
    assert_eq!(first, prim.t);
    assert_eq!(types.lookup_type(rest), Type::Function(prim.boolean, prim.constraint));
}

#[test]
fn roles_and_synonyms() {
    let (mut state, mut types, prim) = setup();
    assert_eq!(nominal_roles(2), vec![Role::Nominal, Role::Nominal]);
    record_synonym(&mut state, ty(3), vec![], prim.boolean);
    assert!(state.checked.synonyms.find(3).is_none());
    record_signature_kind(&mut state, ty(3), prim.t);
    record_synonym(&mut state, ty(3), vec![binder(1, prim.t)], prim.boolean);
    let synonym = state.checked.synonyms.find(3).unwrap();
    assert_eq!((synonym.kind, synonym.expansion), (prim.t, prim.boolean));
    assert_eq!(synonym.parameters, vec![binder(1, prim.t)]);
    assert_eq!(synonym_expansion(&mut types, Some(prim.t)), prim.t);
    let missing = synonym_expansion(&mut types, None);
    assert!(matches!(types.lookup_type(missing), Type::Unknown(_)));
}

#[test]
fn kinds_are_applied_once() {
    let (_, mut types, prim) = setup();
    let own = types.intern_type(Type::Constructor(FILE, ty(0)));
    let replacement = types.intern_kind_application(own, prim.t);
    let apply = ApplyKinds { file: FILE, item: ty(0), replacement };
    assert_eq!(apply.transform(&types, own), FoldAction::Replace(replacement));
    assert_eq!(apply.transform(&types, replacement), FoldAction::Replace(replacement));
    assert_eq!(apply.transform(&types, prim.t), FoldAction::Continue);
    let applied = types.intern_application(own, prim.t);
    assert_eq!(apply.transform(&types, applied), FoldAction::Continue);
    assert!(apply.has_constructor(&types, replacement));
    assert!(!apply.has_constructor(&types, applied));
}

// data T @k (a :: k) = C a
#[test]
fn data_types() {
    let (mut state, mut types, prim) = setup();
    let kinds = vec![binder(1, prim.t)];
    let parameters = vec![binder(2, prim.t)];
    let head = type_head(
        &state,
        &mut types,
        FILE,
        ty(0),
        &kinds,
        &parameters,
        &vec![prim.boolean],
        true,
    );
    assert!(!types.lookup_forall_binder(head.kind_binders[0]).visible);
    let parameter = types.lookup_forall_binder(head.type_parameters[0]);
    assert_eq!(parameter.kind, prim.boolean);
    let Type::Application(reference, _) = types.lookup_type(head.applied) else { panic!() };
    assert_eq!(reference, head.reference);
    assert!(matches!(types.lookup_type(reference), Type::KindApplication(..)));
    let argument = types.intern_rigid(name(2), Depth { level: 0 }, prim.boolean);
    record_roles(&mut state, ty(0), vec![Role::Representational]);
    let type_parameters = head.type_parameters.clone();
    let kind_binder = head.kind_binders[0];
    let applied = head.applied;
    let data = ResolvedData {
        item_id: ty(0),
        newtype: true,
        kind: prim.t,
        head,
        constructors: vec![(term(0), vec![argument]), (term(3), vec![])],
    };
    finalise_data(&mut state, &mut types, data);
    let constructor = state.checked.tree.lookup_term(term(0)).unwrap();
    let declaration = state.checked.tree.find_term(constructor).unwrap();
    let Type::Forall(outer, inner) = types.lookup_type(declaration.type_id) else { panic!() };
    assert_eq!(outer, kind_binder);
    let Type::Forall(next, body) = types.lookup_type(inner) else { panic!() };
    assert_eq!(next, type_parameters[0]);
    assert_eq!(types.lookup_type(body), Type::Function(argument, applied));
    assert_eq!(state.checked.term_item_types.find(0), Some(&declaration.type_id));
    let other = state.checked.tree.lookup_term(term(3)).unwrap();
    let Type::Forall(_, inner) =
        types.lookup_type(*state.checked.term_item_types.find(3).unwrap())
    else {
        panic!()
    };
    assert_eq!(types.lookup_type(inner), Type::Forall(type_parameters[0], applied));
    let id = state.checked.tree.lookup_type_declaration(ty(0)).unwrap();
    let declaration = state.checked.tree.find_type(id).unwrap();
    assert_eq!(declaration.roles, vec![Role::Representational]);
    assert!(matches!(
        &declaration.declaration,
        TypeDeclarationKind::Newtype(data) if data.constructors == vec![constructor, other]
    ));
    let recorded = state.checked.data_declarations.find(0).unwrap();
    assert_eq!(recorded.type_parameters, type_parameters);
}

#[test]
fn classes() {
    let (mut state, mut types, prim) = setup();
    let parameters = vec![binder(2, prim.t)];
    let member = ClassMember { source: term(4), field_type: prim.boolean };
    let superclass = CheckedSuperclass { source_id: source(9), constraint: prim.partial };
    let dependency = FunctionalDependency { determiners: vec![0], determined: vec![1] };
    let resolved = ResolvedClass {
        item_id: ty(0),
        kind: prim.constraint,
        kinds: vec![],
        given: vec![prim.t],
        parameters,
        superclasses: vec![superclass],
        functional_dependencies: vec![dependency],
        members: vec![member],
    };
    finalise_class(&mut state, &mut types, FILE, resolved);
    let class = state.checked.classes.find(0).unwrap();
    let Type::Forall(quantified, constraint) = types.lookup_type(class.canonical) else {
        panic!()
    };
    assert_eq!(quantified, class.type_parameters[0]);
    let Type::Application(reference, _) = types.lookup_type(constraint) else { panic!() };
    assert_eq!(types.lookup_type(reference), Type::Constructor(FILE, ty(0)));
    let selector = *state.checked.term_item_types.find(4).unwrap();
    let Type::Forall(_, body) = types.lookup_type(selector) else { panic!() };
    assert_eq!(types.lookup_type(body), Type::Constrained(constraint, prim.boolean));
    assert_eq!(class.members[0].item_id, term(4));
    assert_eq!(class.functional_dependencies[0].determined, vec![1]);
    let id = state.checked.tree.lookup_type_declaration(ty(0)).unwrap();
    match &state.checked.tree.find_type(id).unwrap().declaration {
        TypeDeclarationKind::Class(class) => {
            assert_eq!(class.superclasses[0].id.source_id, source(9));
            assert_eq!(class.superclasses[0].id.type_id, ty(0));
            assert_eq!(class.superclasses[0].constraint, prim.partial);
            assert_eq!(class.members, vec![member]);
        }
        other => panic!("{other:?}"),
    }
}

#[test]
fn instance_heads() {
    let (mut state, mut types, prim) = setup();
    let instance = InstanceItemId { raw: 3 };
    assert_eq!(
        instance_crumb(InstanceSourceItemId::Instance(instance)),
        ErrorCrumb::InstanceDeclaration(instance)
    );
    let derive = DeriveItemId { raw: 3 };
    assert_eq!(
        instance_crumb(InstanceSourceItemId::Derive(derive)),
        ErrorCrumb::DeriveDeclaration(derive)
    );
    check_instance_head(&mut state, FILE, ty(1), 2, 2);
    assert!(state.checked.errors.is_empty());
    check_instance_head(&mut state, FILE, ty(1), 2, 1);
    assert!(matches!(
        state.checked.errors[0].kind,
        ErrorKind::InstanceHeadMismatch { expected: 2, actual: 1, .. }
    ));
    let constraints = vec![prim.partial, prim.boolean];
    let canonical = canonical_instance(&mut types, prim.t, &constraints);
    let Type::Constrained(first, rest) = types.lookup_type(canonical) else { panic!() };
    assert_eq!(first, prim.partial);
    assert_eq!(types.lookup_type(rest), Type::Constrained(prim.boolean, prim.t));
    record_instance(&mut state, AstId { raw: 8 }, (FILE, ty(1)), canonical, prim.t);
    let recorded = state.checked.instances.find(8).unwrap();
    assert_eq!(recorded.resolution, (FILE, ty(1)));
    assert_eq!(recorded.signature, canonical);
}

#[test]
fn kind_variables_inherit_names() {
    let (mut state, mut types, prim) = setup();
    let text = types.intern_smol_str("k");
    let first = types.intern_rigid(name(1), Depth { level: 0 }, prim.t);
    let second = types.intern_rigid(name(2), Depth { level: 0 }, prim.t);
    let third = types.intern_rigid(name(3), Depth { level: 0 }, prim.t);
    let known = types.intern_smol_str("known");
    state.checked.names.insert(name(2), known);
    let texts = vec![Some(text), Some(text), Some(text)];
    let arguments = vec![
        ApplicationArgument::Kind(first),
        ApplicationArgument::Kind(second),
        ApplicationArgument::Type(third),
    ];
    inherit_instance_kind_names(&mut state, &types, &texts, &arguments);
    assert_eq!(state.checked.names.lookup(name(1)), Some(text));
    assert_eq!(state.checked.names.lookup(name(2)), Some(known));
    assert_eq!(state.checked.names.lookup(name(3)), None);
    let mut renaming = RigidRenaming { replacements: vec![] };
    let rigid =
        freshen_instance_rigid(&mut state, &mut types, &mut renaming, name(9), prim.t, None);
    let Type::Rigid(fresh, _, kind) = types.lookup_type(rigid) else { panic!() };
    assert_eq!(kind, prim.t);
    assert_eq!(renaming.replacement(name(9)), Some((fresh, state.depth)));
    assert_eq!(renaming.replacement(name(8)), None);
}

#[test]
fn superclasses_of_instances() {
    let (mut state, _types, prim) = setup();
    let superclasses = vec![SuperclassConstraint { source_id: source(5), constraint: prim.partial }];
    let checked = emit_instance_superclass_constraints(&mut state, FILE, ty(2), &superclasses);
    assert_eq!(checked.len(), 1);
    assert_eq!(checked[0].id.source_id, source(5));
    assert_eq!(checked[0].id.type_id, ty(2));
    assert_eq!(checked[0].constraint, prim.partial);
    let variable = checked[0].evidence.raw as usize;
    assert_eq!(state.checked.evidence.variables[variable], EvidenceState::Unsolved);
}

#[test]
fn types_of_members() {
    let (_, _, prim) = setup();
    let class = ClassInfo {
        file: FILE,
        kind_binders: vec![name(1)],
        type_parameters: vec![name(2)],
        members: vec![ClassMemberType { item_id: term(4), field_type: prim.boolean }],
    };
    let arguments =
        vec![ApplicationArgument::Kind(prim.t), ApplicationArgument::Type(prim.partial)];
    let (field_type, bindings) =
        instantiate_class_member_type(&class, (FILE, term(4)), &arguments).unwrap();
    assert_eq!(field_type, prim.boolean);
    assert_eq!(bindings, vec![(name(1), prim.t), (name(2), prim.partial)]);
    assert!(instantiate_class_member_type(&class, (FILE, term(5)), &arguments).is_none());
    assert!(instantiate_class_member_type(&class, (FileId { raw: 2 }, term(4)), &arguments).is_none());
    let signature = Some(source(1));
    assert_eq!(
        check_instance_member_group(signature, None),
        MemberRequest::Signature { signature: source(1), class_type: None }
    );
    assert_eq!(
        check_instance_member_group(None, Some(prim.t)),
        MemberRequest::Class { expected: prim.t }
    );
    assert_eq!(check_instance_member_group(None, None), MemberRequest::Nothing);
    let mut state = CheckState::new(FILE);
    check_member_signature(&mut state, true, prim.t, prim.boolean);
    assert!(state.checked.errors.is_empty());
    check_member_signature(&mut state, false, prim.t, prim.boolean);
    assert!(matches!(
        state.checked.errors[0].kind,
        ErrorKind::InstanceMemberTypeMismatch { .. }
    ));
}

fn member(raw: u32) -> InstanceMember {
    InstanceMember {
        resolution: (FILE, term(raw)),
        implementation_type: TypeId { raw: 0 },
        abstractions: vec![],
        equations: vec![],
    }
}

fn named_members() -> Vec<ClassMemberName> {
    let named = |raw, text: &str| ClassMemberName {
        item_id: term(raw),
        name: Some(text.to_string()),
    };
    vec![named(3, "c"), named(1, "a"), named(2, "b")]
}

#[test]
fn missing_members_are_reported() {
    let members = named_members();
    assert_eq!(missing_members(FILE, &members, &vec![member(1)]), vec!["c", "b"]);
    let mut state = CheckState::new(FILE);
    report_missing_members(&mut state, FILE, &members, &vec![member(1)], true);
    assert!(state.checked.errors.is_empty());
    report_missing_members(&mut state, FILE, &members, &vec![member(1)], false);
    match &state.checked.errors[0].kind {
        ErrorKind::MissingInstanceMembers { members } => assert_eq!(*members, vec!["c", "b"]),
        other => panic!("{other:?}"),
    }
    let all = vec![member(1), member(2), member(3)];
    report_missing_members(&mut state, FILE, &members, &all, false);
    assert_eq!(state.checked.errors.len(), 1);
}

#[test]
fn members_are_sorted_like_their_class() {
    let implementations = vec![member(1), member(9), member(2), member(3)];
    let sorted = sort_members(FILE, &named_members(), implementations);
    let order: Vec<u32> = sorted.iter().map(|member| member.resolution.1.raw).collect();
    assert_eq!(order, vec![3, 1, 2, 9]);
}

fn elaborated(source: Option<EquationSourceId>) -> ElaboratedEquation {
    ElaboratedEquation {
        source,
        binders: vec![],
        guarded: GuardedExpression::unconditional(WhereExpression::new(ExpressionId { raw: 0 })),
    }
}

#[test]
fn equations_of_local_values() {
    let equation = elaborated(None).into_local_tree(source(8));
    assert!(matches!(equation.source, EquationSource::Local(SourceId { raw: 8 })));
    assert_eq!(equation.guarded_expression.alternatives.len(), 1);
}

#[test]
fn members_with_all_their_equations() {
    let first = EquationSourceId::Instance(AstId { raw: 1 });
    let checked = |equations| CheckedValueEquations {
        patterns: vec![],
        abstractions: vec![],
        equations,
    };
    let t = TypeId { raw: 0 };
    let resolution = Some((FILE, term(1)));
    let recorded =
        record_instance_member(resolution, &vec![Some(first)], t, checked(vec![elaborated(Some(first))]));
    assert_eq!(recorded.unwrap().equations.len(), 1);
    let recorded = record_instance_member(None, &vec![Some(first)], t, checked(vec![elaborated(Some(first))]));
    assert!(recorded.is_none());
    let recorded = record_instance_member(resolution, &vec![None], t, checked(vec![elaborated(None)]));
    assert!(recorded.is_none());
    let recorded = record_instance_member(resolution, &vec![Some(first)], t, checked(vec![]));
    assert!(recorded.is_none());
}

#[test]
fn groups_of_terms() {
    let (mut state, mut types, prim) = setup();
    let signature = Some(source(1));
    assert_eq!(term_signature(TermItemShape::Value { signature }), signature);
    assert_eq!(term_signature(TermItemShape::Other), None);
    record_term_signature(&mut state, term(0), TermItemShape::Value { signature }, prim.t);
    assert_eq!(state.checked.term_item_types.find(0), Some(&prim.t));
    assert_eq!(
        check_value_group_core(&state, term(0), signature),
        ValueGroupRequest::Check { signature: source(1), signature_type: prim.t }
    );
    assert_eq!(check_value_group_core(&state, term(1), signature), ValueGroupRequest::Infer);
    let foreign = TermItemShape::Foreign { signature };
    record_term_signature(&mut state, term(5), foreign, prim.boolean);
    let id = state.checked.tree.lookup_term(term(5)).unwrap();
    assert!(matches!(
        state.checked.tree.find_term(id).unwrap().kind,
        TermDeclarationKind::Foreign
    ));
    let items = vec![
        (term(0), TermItemShape::Other),
        (term(1), TermItemShape::Value { signature: None }),
        (term(2), TermItemShape::Operator { resolution: Some((FILE, term(0))) }),
    ];
    prepare_binding_group(&mut state, &mut types, &prim, FILE, &items);
    let kind = |raw| *state.checked.term_item_types.find(raw).unwrap();
    assert_eq!(kind(0), prim.t);
    assert!(matches!(types.lookup_type(kind(1)), Type::Unification(0)));
    assert_eq!(kind(2), prim.t);
    let group_type = begin_inferred_group(&mut state, &mut types, &prim, term(1));
    assert!(matches!(types.lookup_type(group_type), Type::Unification(1)));
    assert_eq!(state.checked.term_item_types.find(1), Some(&group_type));
    assert_eq!(check_term_operator(&mut state, term(2), prim.boolean), Some(prim.t));
    assert_eq!(check_term_operator(&mut state, term(6), prim.boolean), None);
    assert_eq!(state.checked.term_item_types.find(6), Some(&prim.boolean));
    let mut pending = TermSccState::new();
    let group = PendingValueGroup::Inferred { residuals: vec![], equations: vec![] };
    pending.insert(term(1), group);
    assert!(pending.take(term(1)).is_some());
    assert!(pending.take(term(1)).is_none());
}

#[test]
fn checked_values_keep_what_is_left_over() {
    let (mut state, _types, prim) = setup();
    let evidence = state.push_wanted(prim.partial);
    let residual =
        Residual { evidence, wanted: wanted(0), given: vec![], constraint: prim.partial };
    let abstraction = DeclarationAbstraction::Evidence {
        constraint: prim.partial,
        binder: EvidenceBinderId { raw: 0 },
    };
    let group = PendingValueGroup::Checked {
        residuals: vec![residual],
        abstractions: vec![abstraction],
        equations: vec![elaborated(None)],
    };
    let (value, left) = pending_value(term(1), prim.t, Some(group));
    assert!(left.is_none());
    assert_eq!(value.type_id, prim.t);
    assert_eq!(value.unsatisfied.len(), 1);
    assert_eq!(value.abstractions, vec![abstraction]);
    assert_eq!(value.equations.len(), 1);
    let (value, left) = pending_value(term(2), prim.boolean, None);
    assert!(left.is_none());
    assert_eq!((value.item_id, value.type_id), (term(2), prim.boolean));
    assert!(value.unsatisfied.is_empty() && value.equations.is_empty());
}

#[test]
fn attached_errors_are_reported_once() {
    let (mut state, _types, prim) = setup();
    state.canonical_errors.put(4, vec![ErrorKind::EmptyDoBlock, ErrorKind::EmptyAdoBlock]);
    state.canonical_errors.put(6, vec![ErrorKind::EmptyAdoBlock]);
    let evidence = state.push_wanted(prim.partial);
    let residual = |raw, constraint| Residual {
        evidence,
        wanted: wanted(raw),
        given: vec![],
        constraint,
    };
    let residuals =
        vec![residual(4, prim.t), residual(5, prim.t), residual(4, prim.boolean)];
    report_unsatisfied(&mut state, term(1), residuals);
    let kinds: Vec<&ErrorKind> = state.checked.errors.iter().map(|error| &error.kind).collect();
    assert_eq!(kinds.len(), 5);
    assert!(matches!(kinds[0], ErrorKind::EmptyDoBlock));
    assert!(matches!(kinds[1], ErrorKind::EmptyAdoBlock));
    assert!(matches!(kinds[2], ErrorKind::NoInstanceFound { .. }));
    assert!(matches!(kinds[3], ErrorKind::NoInstanceFound { .. }));
    assert!(
        matches!(kinds[4], ErrorKind::NoInstanceFound { constraint, .. } if *constraint == prim.boolean)
    );
    assert!(state.canonical_errors.find(4).is_none());
    assert!(state.canonical_errors.find(6).is_some());
}

#[test]
fn values_are_finished() {
    let (mut state, _types, prim) = setup();
    let evidence = state.push_wanted(prim.partial);
    let source = AstId { raw: 3 };
    state.canonical_errors.put(4, vec![ErrorKind::EmptyDoBlock]);
    let residual = || Residual {
        evidence,
        wanted: wanted(4),
        given: vec![],
        constraint: prim.partial,
    };
    let equations = vec![elaborated(Some(EquationSourceId::Value(source)))];
    let group = PendingValueGroup::Inferred { residuals: vec![residual()], equations };
    let (value, left) = pending_value(term(1), prim.t, Some(group));
    assert_eq!(left.map(|residuals| residuals.len()), Some(1));
    assert!(value.unsatisfied.is_empty() && !value.inferred_constraints);
    let constraints =
        vec![InferredConstraint { constraint: prim.partial, binder: EvidenceBinderId { raw: 0 } }];
    let constrained = ConstrainedType {
        type_id: prim.boolean,
        constraints,
        ambiguous: vec![prim.constraint],
        unsatisfied: vec![residual()],
    };
    let mut value = constrained_value(value, constrained);
    assert!(value.inferred_constraints);
    assert_eq!(value.abstractions.len(), 1);
    value.parameters.push(GeneralisedParameter {
        binder: compiler_frontend::checking::types::ForallBinderId { raw: 0 },
        rigid: prim.t,
    });
    finalise_value(&mut state, value, Some(&vec![source]), true);
    assert_eq!(state.checked.term_item_types.find(1), Some(&prim.boolean));
    assert_eq!(
        state.checked.evidence.variables[evidence.raw as usize],
        EvidenceState::Error
    );
    let kinds: Vec<&ErrorKind> = state.checked.errors.iter().map(|error| &error.kind).collect();
    assert_eq!(kinds.len(), 4);
    assert!(matches!(kinds[0], ErrorKind::CannotGeneraliseRecursiveFunction { .. }));
    assert!(matches!(kinds[1], ErrorKind::AmbiguousConstraint { .. }));
    assert!(matches!(kinds[2], ErrorKind::EmptyDoBlock));
    assert!(matches!(kinds[3], ErrorKind::NoInstanceFound { .. }));
    assert_eq!(state.checked.errors[3].crumbs, vec![ErrorCrumb::TermDeclaration(term(1))]);
    let id = state.checked.tree.lookup_term(term(1)).unwrap();
    match &state.checked.tree.find_term(id).unwrap().kind {
        TermDeclarationKind::Value(value) => {
            assert!(matches!(value.abstractions[0], DeclarationAbstraction::Type { .. }));
            assert!(matches!(value.abstractions[1], DeclarationAbstraction::Evidence { .. }));
            assert_eq!(value.equations.len(), 1);
        }
        other => panic!("{other:?}"),
    }
}
