use compiler_frontend::checking::error::{ErrorCrumb, ErrorKind};
use compiler_frontend::checking::evidence::EvidenceState;
use compiler_frontend::checking::lowering::SourceId;
use compiler_frontend::checking::state::{
    pack, CheckState, ExhaustivenessReport, PatternConstructor, RigidRenaming, RigidReplacement,
    SourceTypeVariableKey, UnificationState,
};
use compiler_frontend::checking::tree::{
    BinderKind, BinderSource, ExpressionKind, LocalDeclaration, ValueDeclaration,
};
use compiler_frontend::checking::types::{
    Depth, FileId, ForallBinder, Name, Type, TypeId, Types,
};
use compiler_frontend::indexing::items::TypeItemId;

const FILE: FileId = FileId { raw: 1 };

fn constructor(types: &mut Types, raw: u32) -> TypeId {
    types.intern_type(Type::Constructor(FILE, TypeItemId { raw }))
}

#[test]
fn types_are_held_once() {
    let mut types = Types::new();
    let first = constructor(&mut types, 0);
    let second = constructor(&mut types, 1);
    assert_eq!(constructor(&mut types, 0), first);
    assert_ne!(first, second);
    let arrow = types.intern_function(first, second);
    assert_eq!(types.intern_function(first, second), arrow);
    assert_eq!(types.lookup_type(arrow), Type::Function(first, second));
    assert_eq!(types.intern_smol_str("a"), types.intern_smol_str("a"));
    assert_ne!(types.intern_smol_str("a"), types.intern_smol_str("b"));
    let name = Name { file: FILE, unique: 0, scope: None };
    let binder = ForallBinder { visible: false, name, kind: first, scope: None };
    let id = types.intern_forall_binder(binder);
    assert_eq!(types.intern_forall_binder(binder), id);
    assert_eq!(types.lookup_forall_binder(id), binder);
    assert!(types.holds(arrow));
    assert!(!types.holds(TypeId { raw: 99 }));
}

#[test]
fn types_made_of_lists() {
    let mut types = Types::new();
    let a = constructor(&mut types, 0);
    let b = constructor(&mut types, 1);
    let c = constructor(&mut types, 2);
    let function = types.intern_function_list(&vec![a, b], c);
    let inner = types.intern_function(b, c);
    assert_eq!(types.lookup_type(function), Type::Function(a, inner));
    assert_eq!(types.intern_function_list(&vec![], c), c);
    let applied = types.intern_applications(a, &vec![b, c]);
    let inner = types.intern_application(a, b);
    assert_eq!(types.lookup_type(applied), Type::Application(inner, c));
    let constrained = types.intern_constraints(&vec![a, b], c);
    let inner = types.intern_constrained(b, c);
    assert_eq!(types.lookup_type(constrained), Type::Constrained(a, inner));
    let unknown = types.unknown("why");
    let Type::Unknown(text) = types.lookup_type(unknown) else { panic!() };
    assert_eq!(types.lookup_smol_str(text).unwrap(), "why");
}

#[test]
fn fresh_variables_and_names() {
    let mut types = Types::new();
    let kind = constructor(&mut types, 0);
    let mut state = CheckState::new(FILE);
    let first = state.fresh_unification(&mut types, kind);
    let second = state.fresh_unification(&mut types, kind);
    assert_eq!(types.lookup_type(first), Type::Unification(0));
    assert_eq!(types.lookup_type(second), Type::Unification(1));
    state.unifications.solve(1, kind);
    assert_eq!(state.unifications.get(0).state, UnificationState::Unsolved);
    assert_eq!(state.unifications.get(1).state, UnificationState::Solved(kind));
    let text = types.intern_smol_str("a");
    let rigid = state.fresh_rigid_named(&mut types, kind, Some(text));
    let Type::Rigid(name, depth, of) = types.lookup_type(rigid) else { panic!() };
    assert_eq!(of, kind);
    assert_eq!(depth, state.depth);
    assert_eq!(state.checked.names.lookup(name), Some(text));
    let another = state.fresh_rigid(&mut types, kind);
    assert_ne!(another, rigid);
    assert_eq!(pack(1, 2), 0x1_0000_0002);
}

#[test]
fn scopes_are_left_again() {
    let mut state = CheckState::new(FILE);
    let depth = state.depth;
    let level = state.with_depth(|inner| inner.depth.level);
    assert_eq!(level, depth.level + 1);
    assert_eq!(state.depth, depth);
    assert!(state.with_defer_expansion(|inner| inner.defer_expansion));
    assert!(!state.defer_expansion);
    let crumb = ErrorCrumb::CheckingDoLet(SourceId { raw: 4 });
    state.with_error_crumb(crumb, |inner| inner.insert_error(ErrorKind::EmptyDoBlock));
    state.insert_error(ErrorKind::EmptyAdoBlock);
    assert_eq!(state.checked.errors[0].crumbs, vec![crumb]);
    assert_eq!(state.checked.errors[1].crumbs, vec![]);
    let cached = state.with_zonk_cache(|inner| {
        inner.insert_zonk_cache(TypeId { raw: 3 }, TypeId { raw: 4 });
        inner.lookup_zonk_cache(TypeId { raw: 3 })
    });
    assert_eq!(cached, Some(TypeId { raw: 4 }));
    assert_eq!(state.lookup_zonk_cache(TypeId { raw: 3 }), None);
}

#[test]
fn variables_are_made_again_after_the_cache() {
    let mut types = Types::new();
    let kind = constructor(&mut types, 0);
    let mut state = CheckState::new(FILE);
    let first = state.fresh_unification(&mut types, kind);
    state.with_zonk_cache(|_| ());
    let second = state.fresh_unification(&mut types, kind);
    assert_ne!(first, second);
    assert_eq!(types.lookup_type(second), Type::Unification(1));
    state.unifications.solve(0, kind);
    assert_eq!(state.unifications.get(0).state, UnificationState::Solved(kind));
}

#[test]
fn evidence_and_trees() {
    let mut types = Types::new();
    let t = constructor(&mut types, 0);
    let mut state = CheckState::new(FILE);
    let wanted = state.push_wanted(t);
    assert_eq!(state.checked.evidence.variables, vec![EvidenceState::Unsolved]);
    let given = state.push_given(t);
    assert_eq!(state.checked.evidence.binders, vec![t]);
    assert_eq!((wanted.raw, given.raw), (0, 0));
    state.checked.evidence.mark_error(wanted);
    assert_eq!(state.checked.evidence.variables, vec![EvidenceState::Error]);
    let error = state.allocate_error_expression(t);
    let expression = state.checked.tree.find_expression(error).unwrap();
    assert_eq!(expression.type_id, t);
    assert!(matches!(expression.kind, ExpressionKind::Error));
    let source = SourceId { raw: 6 };
    let section = state.allocate_section_binder(source, t);
    assert_eq!(state.checked.tree.lookup_section_binder(source), Some(section));
    let binder = state.checked.tree.find_binder(section).unwrap();
    assert_eq!(binder.source, BinderSource::Section(source));
    assert!(matches!(binder.kind, BinderKind::Variable));
    assert_eq!(state.checked.section_types.find(6), Some(&t));
    let wildcard = state.allocate_wildcard(t);
    assert_eq!(state.allocate_wildcard(t), wildcard);
    let report = ExhaustivenessReport { missing: None, redundant: vec![wildcard] };
    state.report_exhaustiveness(report);
    assert!(matches!(
        &state.checked.errors[0].kind,
        ErrorKind::RedundantPatterns { patterns } if *patterns == vec![wildcard]
    ));
}

#[test]
fn variables_of_the_source() {
    let mut types = Types::new();
    let kind = constructor(&mut types, 0);
    let other = constructor(&mut types, 1);
    let mut state = CheckState::new(FILE);
    let key = SourceTypeVariableKey::Implicit { node: SourceId { raw: 4 }, id: SourceId { raw: 5 } };
    assert!(state.lookup_source_type_variable(key, &vec![]).is_none());
    let name = state.names.fresh();
    let depth = Depth { level: 0 };
    state.bindings.bind_implicit(SourceId { raw: 4 }, SourceId { raw: 5 }, name, depth, kind);
    let variable = state.lookup_source_type_variable(key, &vec![]).unwrap();
    assert_eq!((variable.name, variable.kind), (name, kind));
    let fresh = state.names.fresh();
    let replacement = RigidReplacement { from: name, to: fresh, depth: Depth { level: 2 } };
    let renaming = RigidRenaming { replacements: vec![replacement] };
    let unrelated = RigidRenaming { replacements: vec![] };
    let found = state.with_source_type_renaming(renaming, |state| {
        state.with_source_type_renaming(unrelated, |state| {
            state.lookup_source_type_variable(key, &vec![other, kind])
        })
    });
    let found = found.unwrap();
    assert_eq!((found.name, found.depth.level, found.kind), (fresh, 2, kind));
    assert!(state.renamings.is_empty());
}

#[test]
fn scoped_names() {
    let mut types = Types::new();
    let kind = constructor(&mut types, 0);
    let mut state = CheckState::new(FILE);
    let text = types.intern_smol_str("a");
    let (rigid, name, scope) = state.fresh_scoped_rigid_named(&mut types, kind, Some(text));
    assert_eq!(name.scope, Some(scope));
    assert_eq!(scope.unique, name.unique);
    assert_eq!(types.lookup_type(rigid), Type::Rigid(name, Depth { level: 0 }, kind));
    assert_eq!(state.checked.names.lookup(name), Some(text));
}

#[test]
fn trees_can_be_mended() {
    let mut types = Types::new();
    let first = constructor(&mut types, 0);
    let second = constructor(&mut types, 1);
    let mut state = CheckState::new(FILE);
    let expression = state.allocate_error_expression(first);
    state.checked.tree.set_expression_type(expression, second);
    assert_eq!(state.checked.tree.find_expression(expression).unwrap().type_id, second);
    state.retain_expression_judgment(expression);
    assert_eq!(state.judgments.find(u64::from(expression.raw)), Some(&true));
    let binder = state.allocate_error_binder(SourceId { raw: 3 }, first);
    assert!(matches!(
        state.checked.tree.find_binder(binder).unwrap().kind,
        BinderKind::Error
    ));
    let source = SourceId { raw: 6 };
    let value = ValueDeclaration { abstractions: vec![], equations: vec![] };
    let local = state.checked.tree.insert_let(LocalDeclaration { source, type_id: first, value });
    state.checked.tree.set_let_type(local, second);
    assert_eq!(state.checked.tree.lookup_let(source), Some(local));
    assert_eq!(state.checked.tree.lookup_let(SourceId { raw: 7 }), None);
    assert_eq!(state.checked.tree.find_local(local).unwrap().type_id, second);
    assert!(state.checked.tree.has_room(u32::MAX - 1));
    assert!(!state.checked.tree.has_room(u32::MAX));
}

#[test]
fn patterns_are_held_once() {
    let mut types = Types::new();
    let t = constructor(&mut types, 0);
    let mut state = CheckState::new(FILE);
    let wildcard = state.allocate_wildcard(t);
    let pair = |wildcard| PatternConstructor { tag: 1, fields: vec![wildcard, wildcard] };
    let first = state.allocate_constructor(pair(wildcard), t);
    assert_ne!(first, wildcard);
    assert_eq!(state.allocate_constructor(pair(wildcard), t), first);
    assert_eq!(state.allocate_wildcard(t), wildcard);
}
