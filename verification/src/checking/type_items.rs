//! Data types, synonyms and classes.

use super::evidence::SuperclassId;
use super::groups::{
    lemma_begun_describes, lemma_describes_extends, lemma_with_describes, Preparation,
};
use super::lowering::{SourceTypeId, TypeVariableBindingId};
use super::state::{
    unification_added, CheckState, CheckedClass, CheckedClassMember, CheckedDataDeclaration,
    CheckedModule, CheckedSuperclass, CheckedSynonym, FunctionalDependency, SourceTypeVariable,
    SourceTypeVariableKey, UnificationEntry, UnificationState,
};
use super::term_items::declared;
use super::terms::form_do::is_variable;
use super::tree::{
    ClassDeclaration, ClassMember, ClassSuperclass, DataConstructor, DataDeclaration,
    TermDeclaration, TermDeclarationId, TermDeclarationKind, Tree, TypeDeclaration,
    TypeDeclarationId, TypeDeclarationKind,
};
use super::types::{
    extends, group_extends, lemma_denotes_extends, lemma_extends_reflexive,
    lemma_extends_transitive, lemma_unknown_extends, Depth, FileId, ForallBinder, ForallBinderId,
    Name, Prim, Role, Type, TypeId, TypeStore, Types,
};
use crate::collections::copy_all;
use crate::indexing::items::{TermItemId, TypeItemId};
use vstd::prelude::*;

verus! {

// Groups

/// The item is in a group whose kinds refer to each other in a circle.
pub open spec fn in_cycle(cycles: Seq<Vec<TypeItemId>>, item_id: TypeItemId) -> bool {
    exists|i: int, j: int|
        0 <= i < cycles.len() && 0 <= j < cycles[i]@.len() && #[trigger] cycles[i]@[j] == item_id
}

/// Whether the item is in a group whose kinds refer to each other in a circle.
pub fn is_recursive_kind(cycles: &Vec<Vec<TypeItemId>>, item_id: TypeItemId) -> (recursive: bool)
    ensures
        recursive == in_cycle(cycles@, item_id),
{
    let mut outer: usize = 0;
    while outer < cycles.len()
        invariant
            outer <= cycles.len(),
            forall|i: int, j: int|
                0 <= i < outer && 0 <= j < cycles@[i]@.len() ==> #[trigger] cycles@[i]@[j]
                    != item_id,
        decreases cycles.len() - outer,
    {
        let group = &cycles[outer];
        let mut inner: usize = 0;
        while inner < group.len()
            invariant
                inner <= group.len(),
                outer < cycles.len(),
                *group == cycles@[outer as int],
                forall|j: int| 0 <= j < inner ==> group@[j] != item_id,
            decreases group.len() - inner,
        {
            if group[inner] == item_id {
                assert(cycles@[outer as int]@[inner as int] == item_id);
                return true;
            }
            inner += 1;
        }
        outer += 1;
    }
    false
}

/// The items that are in no circle, or that are in one, in order.
pub open spec fn partitioned(
    cycles: Seq<Vec<TypeItemId>>,
    items: Seq<TypeItemId>,
    recursive: bool,
) -> Seq<TypeItemId>
    decreases items.len(),
{
    if items.len() == 0 {
        Seq::empty()
    } else {
        let before = partitioned(cycles, items.drop_last(), recursive);
        if in_cycle(cycles, items.last()) == recursive {
            before.push(items.last())
        } else {
            before
        }
    }
}

/// The items of a group that can be checked, and those that have to be skipped.
pub fn partition_type_items(cycles: &Vec<Vec<TypeItemId>>, items: &Vec<TypeItemId>) -> (parts: (
    Vec<TypeItemId>,
    Vec<TypeItemId>,
))
    ensures
        parts.0@ == partitioned(cycles@, items@, false),
        parts.1@ == partitioned(cycles@, items@, true),
{
    let mut checked: Vec<TypeItemId> = Vec::new();
    let mut skipped: Vec<TypeItemId> = Vec::new();
    let mut index: usize = 0;
    assert(items@.take(0) =~= Seq::empty());
    while index < items.len()
        invariant
            index <= items.len(),
            checked@ == partitioned(cycles@, items@.take(index as int), false),
            skipped@ == partitioned(cycles@, items@.take(index as int), true),
        decreases items.len() - index,
    {
        assert(items@.take(index + 1).drop_last() =~= items@.take(index as int));
        let item_id = items[index];
        if is_recursive_kind(cycles, item_id) {
            skipped.push(item_id);
        } else {
            checked.push(item_id);
        }
        index += 1;
    }
    assert(items@.take(index as int) =~= items@);
    (checked, skipped)
}

/// Every item of a group is either checked or skipped.
pub proof fn lemma_partition(cycles: Seq<Vec<TypeItemId>>, items: Seq<TypeItemId>, item: TypeItemId)
    ensures
        items.contains(item) <==> partitioned(cycles, items, false).contains(item) || partitioned(
            cycles,
            items,
            true,
        ).contains(item),
        partitioned(cycles, items, true).contains(item) ==> in_cycle(cycles, item),
        partitioned(cycles, items, false).contains(item) ==> !in_cycle(cycles, item),
    decreases items.len(),
{
    if items.len() > 0 {
        let rest = items.drop_last();
        let last = items.last();
        lemma_partition(cycles, rest, item);
        lemma_push_contains(rest, last, item);
        assert(items =~= rest.push(last));
        lemma_push_contains(partitioned(cycles, rest, false), last, item);
        lemma_push_contains(partitioned(cycles, rest, true), last, item);
    }
}

proof fn lemma_push_contains(items: Seq<TypeItemId>, last: TypeItemId, item: TypeItemId)
    ensures
        items.push(last).contains(item) <==> items.contains(item) || last == item,
{
    let pushed = items.push(last);
    if items.contains(item) {
        let i = items.index_of(item);
        assert(pushed[i] == item);
    }
    if last == item {
        assert(pushed[items.len() as int] == item);
    }
    if pushed.contains(item) {
        let i = pushed.index_of(item);
        if i < items.len() {
            assert(items[i] == item);
        }
    }
}

/// The later state differs from the earlier one in the kinds of types only.
pub open spec fn only_kinds(before: CheckState, after: CheckState) -> bool {
    after == (CheckState {
        checked: CheckedModule {
            type_item_kinds: after.checked.type_item_kinds,
            ..before.checked
        },
        ..before
    })
}

/// Kinds with an unknown one for some items.
pub open spec fn with_kind(kinds: Map<u64, TypeId>, items: Seq<TypeItemId>, kind: TypeId) -> Map<
    u64,
    TypeId,
>
    decreases items.len(),
{
    if items.len() == 0 {
        kinds
    } else {
        with_kind(kinds, items.drop_last(), kind).insert(items.last().raw as u64, kind)
    }
}

/// Gives an unknown kind to items that are skipped, so that others can be checked.
pub fn populate_skipped_items(state: &mut CheckState, types: &mut Types, items: &Vec<TypeItemId>)
    requires
        old(types)@.wf(),
    ensures
        final(types)@.wf(),
        extends(old(types)@, final(types)@),
        final(types)@ == old(types)@.with_unknown("invalid recursive type"@).0,
        only_kinds(*old(state), *final(state)),
        exists|unknown: TypeId| #[trigger]
            final(types)@.is_unknown(unknown, "invalid recursive type"@)
                && final(state).checked.type_item_kinds@ == with_kind(
                old(state).checked.type_item_kinds@,
                items@,
                unknown,
            ),
{
    let unknown = types.unknown("invalid recursive type");
    let mut index: usize = 0;
    assert(items@.take(0) =~= Seq::empty());
    while index < items.len()
        invariant
            index <= items.len(),
            only_kinds(*old(state), *state),
            state.checked.type_item_kinds@ == with_kind(
                old(state).checked.type_item_kinds@,
                items@.take(index as int),
                unknown,
            ),
        decreases items.len() - index,
    {
        assert(items@.take(index + 1).drop_last() =~= items@.take(index as int));
        state.checked.type_item_kinds.insert(items[index].raw as u64, unknown);
        index += 1;
    }
    assert(items@.take(index as int) =~= items@);
}

/// The kinds once the items of a group have one.
pub open spec fn kinds_prepared(begun: Preparation, items: Seq<TypeItemId>) -> Preparation
    decreases items.len(),
{
    if items.len() == 0 {
        begun
    } else {
        kinds_prepared(begun, items.drop_last()).with(items.last().raw as u64, None)
    }
}

/// Prepares the items of a group that refer to each other: those without a kind get
/// one that is still to be found.
pub fn prepare_binding_group(
    state: &mut CheckState,
    types: &mut Types,
    prim: &Prim,
    items: &Vec<TypeItemId>,
)
    requires
        old(state).unifications.wf(),
        !old(state).unifications.is_frozen(),
        old(state).unifications@.len() + items@.len() <= u32::MAX,
        old(types)@.wf(),
    ensures
        final(types)@.wf(),
        extends(old(types)@, final(types)@),
        *final(state) == (CheckState {
            checked: CheckedModule {
                type_item_kinds: final(state).checked.type_item_kinds,
                ..old(state).checked
            },
            unifications: final(state).unifications,
            ..*old(state)
        }),
        ({
            let prepared = kinds_prepared(
                Preparation::begun(old(state).checked.type_item_kinds@),
                items@,
            );
            &&& prepared.describes(
                final(types)@,
                final(state).checked.type_item_kinds@,
                old(state).unifications@.len(),
            )
            &&& prepared.counted(*old(state), *final(state), prim.t)
            &&& final(types)@ == old(types)@.with_variables(
                old(state).unifications@.len(),
                prepared.fresh,
            )
        }),
{
    let mut index: usize = 0;
    let ghost begun = Preparation::begun(state.checked.type_item_kinds@);
    let ghost first = state.unifications@.len();
    proof {
        lemma_extends_reflexive(types@);
        lemma_begun_describes(types@, state.checked.type_item_kinds@, first);
        assert(items@.take(0) =~= Seq::empty());
        assert(begun.counted(*state, *state, prim.t)) by {
            assert(state.unifications@ + Seq::new(
                0,
                |i: int|
                    UnificationEntry {
                        depth: state.depth,
                        kind: prim.t,
                        state: UnificationState::Unsolved,
                    },
            ) =~= state.unifications@);
        }
    }
    while index < items.len()
        invariant
            index <= items.len(),
            types@.wf(),
            extends(old(types)@, types@),
            begun == Preparation::begun(old(state).checked.type_item_kinds@),
            first == old(state).unifications@.len(),
            first + items@.len() <= u32::MAX,
            kinds_prepared(begun, items@.take(index as int)).fresh <= index,
            types@ == old(types)@.with_variables(
                first,
                kinds_prepared(begun, items@.take(index as int)).fresh,
            ),
            kinds_prepared(begun, items@.take(index as int)).describes(
                types@,
                state.checked.type_item_kinds@,
                first,
            ),
            kinds_prepared(begun, items@.take(index as int)).counted(
                *old(state),
                *state,
                prim.t,
            ),
            *state == (CheckState {
                checked: CheckedModule {
                    type_item_kinds: state.checked.type_item_kinds,
                    ..old(state).checked
                },
                unifications: state.unifications,
                ..*old(state)
            }),
        decreases items.len() - index,
    {
        let key: u64 = items[index].raw as u64;
        let ghost store = types@;
        let ghost known = state.checked.type_item_kinds@;
        let ghost before = kinds_prepared(begun, items@.take(index as int));
        let ghost made = state.unifications@;
        assert(items@.take(index + 1).drop_last() =~= items@.take(index as int));
        if state.checked.type_item_kinds.get(key).is_none() {
            let kind = state.fresh_unification(types, prim.t);
            state.checked.type_item_kinds.insert(key, kind);
            proof {
                lemma_extends_transitive(old(types)@, store, types@);
                lemma_describes_extends(before, store, types@, known, first);
                lemma_with_describes(before, types@, known, first, key, None, kind);
                assert(state.unifications@ =~= old(state).unifications@ + Seq::new(
                    before.fresh + 1,
                    |i: int|
                        UnificationEntry {
                            depth: old(state).depth,
                            kind: prim.t,
                            state: UnificationState::Unsolved,
                        },
                ));
            }
        } else {
            assert(before.types.dom().contains(key));
        }
        index += 1;
    }
    assert(items@.take(index as int) =~= items@);
}

// Signatures and equations

/// What a type is, as far as its signature goes.
#[derive(Clone, Copy, Debug, PartialEq, Eq, Structural)]
pub enum TypeItemShape {
    Data { signature: Option<SourceTypeId> },
    Newtype { signature: Option<SourceTypeId> },
    Synonym { signature: Option<SourceTypeId> },
    Class { signature: Option<SourceTypeId> },
    Foreign { signature: Option<SourceTypeId> },
    Operator,
}

/// The signature that has to be checked for a type.
pub fn type_signature(shape: TypeItemShape) -> (signature: Option<SourceTypeId>)
    ensures
        signature == (match shape {
            TypeItemShape::Data { signature } => signature,
            TypeItemShape::Newtype { signature } => signature,
            TypeItemShape::Synonym { signature } => signature,
            TypeItemShape::Class { signature } => signature,
            TypeItemShape::Foreign { signature } => signature,
            TypeItemShape::Operator => None,
        }),
{
    match shape {
        TypeItemShape::Data { signature } => signature,
        TypeItemShape::Newtype { signature } => signature,
        TypeItemShape::Synonym { signature } => signature,
        TypeItemShape::Class { signature } => signature,
        TypeItemShape::Foreign { signature } => signature,
        TypeItemShape::Operator => None,
    }
}

/// Records the kind of a type whose signature has been checked.
pub fn record_signature_kind(state: &mut CheckState, item_id: TypeItemId, kind: TypeId)
    ensures
        only_kinds(*old(state), *final(state)),
        final(state).checked.type_item_kinds@ == old(state).checked.type_item_kinds@.insert(
            item_id.raw as u64,
            kind,
        ),
{
    state.checked.type_item_kinds.insert(item_id.raw as u64, kind);
}

/// How the equation of a type is elaborated.
#[allow(inconsistent_fields)]
#[derive(Clone, Copy, Debug, PartialEq, Eq, Structural)]
pub enum EquationRequest {
    Check { signature: SourceTypeId, signature_kind: TypeId },
    Infer,
}

/// How the equation of a type is elaborated: it is checked against a signature whose
/// kind is known, and inferred otherwise.
pub fn equation_request(
    state: &CheckState,
    item_id: TypeItemId,
    signature: Option<SourceTypeId>,
) -> (request: EquationRequest)
    ensures
        request == ({
            let known = state.checked.type_item_kinds@;
            if signature is Some && known.contains_key(item_id.raw as u64) {
                EquationRequest::Check {
                    signature: signature->0,
                    signature_kind: known[item_id.raw as u64],
                }
            } else {
                EquationRequest::Infer
            }
        }),
{
    match (signature, state.checked.type_item_kinds.get(item_id.raw as u64)) {
        (Some(signature), Some(signature_kind)) => EquationRequest::Check {
            signature,
            signature_kind: *signature_kind,
        },
        _ => EquationRequest::Infer,
    }
}

/// Where the kind of a type variable comes from.
#[allow(inconsistent_fields)]
#[derive(Clone, Copy, Debug, PartialEq, Eq, Structural)]
pub enum BindingRequest {
    /// The variable's own kind has to be inferred; the signature's has to be a
    /// subtype of it.
    Infer { signature_kind: TypeId, binding_kind: SourceTypeId },
    /// The signature gives the kind.
    Signature { signature_kind: TypeId },
    /// The variable's own kind has to be checked.
    Check { binding_kind: SourceTypeId },
    /// Nothing gives the kind; it is still to be found.
    Fresh,
}

/// Where the kind of a type variable comes from.
pub fn resolve_type_variable_binding(signature: Option<TypeId>, kind: Option<SourceTypeId>) -> (
request: BindingRequest)
    ensures
        request == (match (signature, kind) {
            (Some(signature_kind), Some(binding_kind)) => BindingRequest::Infer {
                signature_kind,
                binding_kind,
            },
            (Some(signature_kind), None) => BindingRequest::Signature { signature_kind },
            (None, Some(binding_kind)) => BindingRequest::Check { binding_kind },
            (None, None) => BindingRequest::Fresh,
        }),
{
    match (signature, kind) {
        (Some(signature_kind), Some(binding_kind)) => BindingRequest::Infer {
            signature_kind,
            binding_kind,
        },
        (Some(signature_kind), None) => BindingRequest::Signature { signature_kind },
        (None, Some(binding_kind)) => BindingRequest::Check { binding_kind },
        (None, None) => BindingRequest::Fresh,
    }
}

/// The inferred kind of a variable, or an unknown one where the signature's is no
/// subtype of it.
pub fn resolved_kind(types: &mut Types, valid: bool, binding_kind: TypeId) -> (kind: TypeId)
    requires
        old(types)@.wf(),
    ensures
        final(types)@.wf(),
        extends(old(types)@, final(types)@),
        !valid ==> final(types)@ == old(types)@.with_unknown("invalid variable kind"@).0,
        valid ==> kind == binding_kind && final(types)@ == old(types)@,
        !valid ==> final(types)@.is_unknown(kind, "invalid variable kind"@),
{
    if valid {
        binding_kind
    } else {
        types.unknown("invalid variable kind")
    }
}

/// A type variable of an equation.
#[derive(Clone, Copy, Debug, PartialEq, Eq, Structural)]
pub struct TypeVariableBinding {
    pub id: TypeVariableBindingId,
    pub visible: bool,
    pub kind: Option<SourceTypeId>,
}

/// Binds a type variable whose kind is known to a new name. The text is that of the
/// source; a variable without one shows its new name.
pub fn bind_type_variable(
    state: &mut CheckState,
    types: &mut Types,
    binding: TypeVariableBinding,
    name: Name,
    text: &str,
    kind: TypeId,
) -> (binder: ForallBinder)
    requires
        old(types)@.wf(),
    ensures
        final(types)@.wf(),
        extends(old(types)@, final(types)@),
        final(types)@ == old(types)@.with_text(text@),
        binder == (ForallBinder { visible: binding.visible, name, kind, scope: None }),
        final(state).checked.forall_bindings@ == old(state).checked.forall_bindings@.insert(
            binding.id.raw as u64,
            kind,
        ),
        exists|id| #[trigger]
            final(types)@.denotes_text(id, text@) && final(state).checked.names@ == old(
                state,
            ).checked.names@.push((name, id)),
        forall|other: SourceTypeVariableKey| #[trigger]
            final(state).bindings.binding(other) == (if other == SourceTypeVariableKey::Forall(
                binding.id,
            ) {
                Some(SourceTypeVariable { name, depth: old(state).depth, kind })
            } else {
                old(state).bindings.binding(other)
            }),
        *final(state) == (CheckState {
            checked: CheckedModule {
                names: final(state).checked.names,
                forall_bindings: final(state).checked.forall_bindings,
                ..old(state).checked
            },
            bindings: final(state).bindings,
            ..*old(state)
        }),
{
    state.checked.forall_bindings.insert(binding.id.raw as u64, kind);
    state.bindings.bind_forall(binding.id, name, state.depth, kind);
    let id = types.intern_smol_str(text);
    state.checked.names.insert(name, id);
    ForallBinder { visible: binding.visible, name, kind, scope: None }
}

/// The kind that the signature gives to a variable.
pub fn signature_kind(signature: &Vec<TypeId>, index: usize) -> (kind: Option<TypeId>)
    ensures
        kind == (if index < signature@.len() {
            Some(signature@[index as int])
        } else {
            None
        }),
{
    if index < signature.len() {
        Some(signature[index])
    } else {
        None
    }
}

/// The kinds of binders.
pub open spec fn binder_kinds(binders: Seq<ForallBinder>) -> Seq<TypeId> {
    Seq::new(binders.len(), |i: int| binders[i].kind)
}

/// The kind of a type with these parameters.
pub fn inferred_kind(types: &mut Types, binders: &Vec<ForallBinder>, result: TypeId) -> (kind:
    TypeId)
    requires
        old(types)@.wf(),
    ensures
        final(types)@.wf(),
        extends(old(types)@, final(types)@),
        (final(types)@, kind) == old(types)@.with_functions(binder_kinds(binders@), result),
        final(types)@.is_function(kind, binder_kinds(binders@), result),
{
    let mut kinds: Vec<TypeId> = Vec::new();
    let mut index: usize = 0;
    while index < binders.len()
        invariant
            index <= binders.len(),
            kinds@.len() == index,
            forall|i: int| 0 <= i < index ==> kinds@[i] == binders@[i].kind,
        decreases binders.len() - index,
    {
        kinds.push(binders[index].kind);
        index += 1;
    }
    assert(kinds@ =~= binder_kinds(binders@));
    types.intern_function_list(&kinds, result)
}

/// The kind of a type or an operator: recorded, or to be made a subtype of the kind
/// that the item has already.
pub fn record_inferred_kind(state: &mut CheckState, item_id: TypeItemId, kind: TypeId) -> (known:
    Option<TypeId>)
    ensures
        ({
            let before = old(state).checked.type_item_kinds@;
            let key = item_id.raw as u64;
            if before.contains_key(key) {
                known == Some(before[key]) && *final(state) == *old(state)
            } else {
                &&& known is None
                &&& final(state).checked.type_item_kinds@ == before.insert(key, kind)
                &&& only_kinds(*old(state), *final(state))
            }
        }),
{
    match state.checked.type_item_kinds.get(item_id.raw as u64) {
        Some(known) => {
            return Some(*known);
        },
        None => {},
    }
    state.checked.type_item_kinds.insert(item_id.raw as u64, kind);
    None
}

/// The kind of a synonym's result, which is still to be found.
pub fn synonym_result(state: &mut CheckState, types: &mut Types, prim: &Prim) -> (result: TypeId)
    requires
        old(state).unifications.wf(),
        !old(state).unifications.is_frozen(),
        old(state).unifications@.len() < u32::MAX,
        old(types)@.wf(),
    ensures
        final(types)@.wf(),
        extends(old(types)@, final(types)@),
        result == final(types)@.identity(Type::Unification(old(state).unifications@.len() as u32)),
        final(types)@ == old(types)@.with_variable(old(state).unifications@.len()),
        unification_added(*old(state), *final(state), prim.t),
        is_variable(final(types)@, result, old(state).unifications@.len()),
{
    state.fresh_unification(types, prim.t)
}

/// The type that a synonym stands for, once that has been checked, or an unknown one
/// where it is missing.
pub fn synonym_expansion(types: &mut Types, checked: Option<TypeId>) -> (expansion: TypeId)
    requires
        old(types)@.wf(),
    ensures
        final(types)@.wf(),
        extends(old(types)@, final(types)@),
        checked is None ==> final(types)@ == old(types)@.with_unknown("invalid synonym type"@).0,
        match checked {
            Some(checked) => expansion == checked && final(types)@ == old(types)@,
            None => final(types)@.is_unknown(expansion, "invalid synonym type"@),
        },
{
    match checked {
        Some(checked) => checked,
        None => types.unknown("invalid synonym type"),
    }
}

/// The roles of a foreign type's parameters, where it declares none.
pub fn nominal_roles(count: usize) -> (roles: Vec<Role>)
    ensures
        roles@ == Seq::new(count as nat, |i: int| Role::Nominal),
{
    let mut roles: Vec<Role> = Vec::new();
    while roles.len() < count
        invariant
            roles@.len() <= count,
            forall|i: int| 0 <= i < roles@.len() ==> roles@[i] is Nominal,
        decreases count - roles.len(),
    {
        roles.push(Role::Nominal);
    }
    assert(roles@ =~= Seq::new(count as nat, |i: int| Role::Nominal));
    roles
}

// References to a type within itself

/// Replaces a type by its application to kinds.
#[derive(Clone, Copy, Debug, PartialEq, Eq, Structural)]
pub struct ApplyKinds {
    pub file: FileId,
    pub item: TypeItemId,
    pub replacement: TypeId,
}

/// What is done with a type on the way through a larger one.
#[derive(Clone, Copy, Debug, PartialEq, Eq, Structural)]
pub enum FoldAction {
    /// The type is replaced as a whole.
    Replace(TypeId),
    /// The parts of the type are looked at.
    Continue,
}

/// The type is the constructor, applied to kinds. Types stand behind the types that
/// they are made of.
pub open spec fn is_applied_constructor(
    store: TypeStore,
    file: FileId,
    item: TypeItemId,
    id: TypeId,
) -> bool
    decreases id.raw,
{
    if !store.has_type(id) {
        false
    } else {
        match store.type_at(id) {
            Type::KindApplication(function, _) => function.raw < id.raw && is_applied_constructor(
                store,
                file,
                item,
                function,
            ),
            Type::Constructor(own_file, own_item) => own_file == file && own_item == item,
            _ => false,
        }
    }
}

impl ApplyKinds {
    /// Whether a type is the constructor, applied to kinds.
    pub fn has_constructor(&self, types: &Types, function: TypeId) -> (applied: bool)
        ensures
            applied == is_applied_constructor(types@, self.file, self.item, function),
        decreases function.raw,
    {
        if !types.holds(function) {
            return false;
        }
        match types.lookup_type(function) {
            Type::KindApplication(inner, _) => inner.raw < function.raw && self.has_constructor(
                types,
                inner,
            ),
            Type::Constructor(file, item) => file == self.file && item == self.item,
            _ => false,
        }
    }

    /// What is done with a type. A constructor that has its kinds stays as it is;
    /// one without gets them.
    pub fn transform(&self, types: &Types, id: TypeId) -> (action: FoldAction)
        requires
            types@.has_type(id),
        ensures
            action == (match types@.type_at(id) {
                Type::KindApplication(function, _) => if is_applied_constructor(
                    types@,
                    self.file,
                    self.item,
                    function,
                ) {
                    FoldAction::Replace(id)
                } else {
                    FoldAction::Continue
                },
                Type::Constructor(file, item) => if file == self.file && item == self.item {
                    FoldAction::Replace(self.replacement)
                } else {
                    FoldAction::Continue
                },
                _ => FoldAction::Continue,
            }),
    {
        match types.lookup_type(id) {
            Type::KindApplication(function, _) => {
                if self.has_constructor(types, function) {
                    FoldAction::Replace(id)
                } else {
                    FoldAction::Continue
                }
            },
            Type::Constructor(file, item) => {
                if file == self.file && item == self.item {
                    FoldAction::Replace(self.replacement)
                } else {
                    FoldAction::Continue
                }
            },
            _ => FoldAction::Continue,
        }
    }
}

// Heads

/// The binders are interned.
pub open spec fn are_binders(
    store: TypeStore,
    ids: Seq<ForallBinderId>,
    binders: Seq<ForallBinder>,
) -> bool {
    &&& ids.len() == binders.len()
    &&& forall|i: int| 0 <= i < ids.len() ==> store.denotes_binder(#[trigger] ids[i], binders[i])
}

/// The types are the variables of the binders.
pub open spec fn are_rigids(
    store: TypeStore,
    ids: Seq<TypeId>,
    binders: Seq<ForallBinder>,
    depth: Depth,
) -> bool {
    &&& ids.len() == binders.len()
    &&& forall|i: int|
        0 <= i < ids.len() ==> store.denotes(
            #[trigger] ids[i],
            Type::Rigid(binders[i].name, depth, binders[i].kind),
        )
}

/// The kinds are those given, or unknown where none is.
pub open spec fn are_parameter_kinds(
    store: TypeStore,
    kinds: Seq<TypeId>,
    given: Seq<TypeId>,
) -> bool {
    forall|i: int|
        0 <= i < kinds.len() ==> if i < given.len() {
            #[trigger] kinds[i] == given[i]
        } else {
            store.is_unknown(kinds[i], "invalid kind"@)
        }
}

proof fn lemma_binders_extend(
    before: TypeStore,
    after: TypeStore,
    ids: Seq<ForallBinderId>,
    binders: Seq<ForallBinder>,
)
    requires
        extends(before, after),
        are_binders(before, ids, binders),
    ensures
        are_binders(after, ids, binders),
{
    assert forall|i: int| 0 <= i < ids.len() implies after.denotes_binder(
        #[trigger] ids[i],
        binders[i],
    ) by {
        assert(before.denotes_binder(ids[i], binders[i]));
        assert(before.binders[ids[i].raw as int] == after.binders[ids[i].raw as int]);
    }
}

proof fn lemma_rigids_extend(
    before: TypeStore,
    after: TypeStore,
    ids: Seq<TypeId>,
    binders: Seq<ForallBinder>,
    depth: Depth,
)
    requires
        extends(before, after),
        are_rigids(before, ids, binders, depth),
    ensures
        are_rigids(after, ids, binders, depth),
{
    assert forall|i: int| 0 <= i < ids.len() implies after.denotes(
        #[trigger] ids[i],
        Type::Rigid(binders[i].name, depth, binders[i].kind),
    ) by {
        lemma_denotes_extends(
            before,
            after,
            ids[i],
            Type::Rigid(binders[i].name, depth, binders[i].kind),
        );
    }
}

proof fn lemma_parameter_kinds_extend(
    before: TypeStore,
    after: TypeStore,
    kinds: Seq<TypeId>,
    given: Seq<TypeId>,
)
    requires
        extends(before, after),
        are_parameter_kinds(before, kinds, given),
    ensures
        are_parameter_kinds(after, kinds, given),
{
    assert forall|i: int| 0 <= i < kinds.len() implies if i < given.len() {
        #[trigger] kinds[i] == given[i]
    } else {
        after.is_unknown(kinds[i], "invalid kind"@)
    } by {
        if i >= given.len() {
            lemma_unknown_extends(before, after, kinds[i], "invalid kind"@);
        }
    }
}

/// Parameters with the kinds that they have in the generalised kind of their type,
/// in place of those that they were checked with.
pub open spec fn with_kinds(parameters: Seq<ForallBinder>, kinds: Seq<TypeId>) -> Seq<ForallBinder> {
    Seq::new(parameters.len(), |i: int| ForallBinder { kind: kinds[i], ..parameters[i] })
}

/// The store with what stands for the kinds that are not given, and the parameters with
/// their kinds.
pub open spec fn with_generalised(
    store: TypeStore,
    parameters: Seq<ForallBinder>,
    given: Seq<TypeId>,
) -> (TypeStore, Seq<ForallBinder>) {
    let (held, unknown) = store.with_unknown("invalid kind"@);
    let kinds = Seq::new(
        parameters.len(),
        |i: int|
            if i < given.len() {
                given[i]
            } else {
                unknown
            },
    );
    (
        if given.len() < parameters.len() {
            held
        } else {
            store
        },
        with_kinds(parameters, kinds),
    )
}

/// An unknown type that is held is found again.
proof fn lemma_unknown_again(store: TypeStore, explanation: Seq<char>)
    ensures
        store.with_unknown(explanation).0.with_unknown(explanation) == store.with_unknown(
            explanation,
        ),
{
    let texts = store.with_text(explanation).texts;
    assert(texts.contains(explanation)) by {
        if !store.texts.contains(explanation) {
            assert(texts.last() == explanation);
        }
    }
    let held = store.with_text(explanation);
    let unknown = Type::Unknown(held.text_identity(explanation));
    let types = held.with_type(unknown).types;
    assert(types.contains(unknown)) by {
        if !held.types.contains(unknown) {
            assert(types.last() == unknown);
        }
    }
}

/// Parameters with the kinds that are given; others get an unknown kind.
fn generalised_parameters(
    types: &mut Types,
    parameters: &Vec<ForallBinder>,
    given: &Vec<TypeId>,
) -> (generalised: Vec<ForallBinder>)
    requires
        old(types)@.wf(),
    ensures
        final(types)@.wf(),
        extends(old(types)@, final(types)@),
        (final(types)@, generalised@) == with_generalised(old(types)@, parameters@, given@),
        has_generalised(final(types)@, parameters@, given@, generalised@),
{
    let mut generalised: Vec<ForallBinder> = Vec::new();
    let mut kinds: Vec<TypeId> = Vec::new();
    let mut index: usize = 0;
    let ghost unknown = types@.with_unknown("invalid kind"@);
    proof {
        lemma_extends_reflexive(types@);
    }
    while index < parameters.len()
        invariant
            index <= parameters.len(),
            types@.wf(),
            extends(old(types)@, types@),
            generalised@.len() == index,
            types@ == (if given@.len() < index {
                unknown.0
            } else {
                old(types)@
            }),
            unknown == old(types)@.with_unknown("invalid kind"@),
            forall|i: int|
                given@.len() <= i < index ==> #[trigger] kinds@[i] == unknown.1,
            forall|i: int| 0 <= i < index && i < given@.len() ==> #[trigger] kinds@[i] == given@[i],
            kinds@.len() == index,
            are_parameter_kinds(types@, kinds@, given@),
            forall|i: int|
                0 <= i < index ==> generalised@[i] == (ForallBinder {
                    kind: kinds@[i],
                    ..parameters@[i]
                }),
        decreases parameters.len() - index,
    {
        let ghost before = types@;
        let ghost known = kinds@;
        let kind = if index < given.len() {
            given[index]
        } else {
            types.unknown("invalid kind")
        };
        proof {
            lemma_unknown_again(old(types)@, "invalid kind"@);
            lemma_extends_reflexive(before);
            lemma_extends_transitive(old(types)@, before, types@);
            lemma_parameter_kinds_extend(before, types@, known, given@);
        }
        generalised.push(ForallBinder { kind, ..parameters[index] });
        kinds.push(kind);
        assert(forall|i: int| 0 <= i < known.len() ==> kinds@[i] == known[i]);
        index += 1;
    }
    assert(generalised@ =~= with_kinds(parameters@, kinds@));
    assert(are_parameter_kinds(types@, kinds@, given@));
    assert(generalised@ =~= with_generalised(old(types)@, parameters@, given@).1);
    generalised
}

/// The binders are the parameters with the kinds given.
pub open spec fn has_generalised(
    store: TypeStore,
    parameters: Seq<ForallBinder>,
    given: Seq<TypeId>,
    generalised: Seq<ForallBinder>,
) -> bool {
    exists|kinds: Seq<TypeId>|
        kinds.len() == parameters.len() && #[trigger] are_parameter_kinds(store, kinds, given)
            && generalised == with_kinds(parameters, kinds)
}

proof fn lemma_generalised_extends(
    before: TypeStore,
    after: TypeStore,
    parameters: Seq<ForallBinder>,
    given: Seq<TypeId>,
    generalised: Seq<ForallBinder>,
)
    requires
        extends(before, after),
        has_generalised(before, parameters, given, generalised),
    ensures
        has_generalised(after, parameters, given, generalised),
{
    let kinds = choose|kinds: Seq<TypeId>|
        kinds.len() == parameters.len() && #[trigger] are_parameter_kinds(before, kinds, given)
            && generalised == with_kinds(parameters, kinds);
    lemma_parameter_kinds_extend(before, after, kinds, given);
}

fn intern_binders(types: &mut Types, binders: &Vec<ForallBinder>) -> (ids: Vec<ForallBinderId>)
    requires
        old(types)@.wf(),
    ensures
        final(types)@.wf(),
        extends(old(types)@, final(types)@),
        final(types)@ == old(types)@.with_binders(binders@),
        are_binders(final(types)@, ids@, binders@),
{
    let mut ids: Vec<ForallBinderId> = Vec::new();
    let mut index: usize = 0;
    proof {
        lemma_extends_reflexive(types@);
    }
    while index < binders.len()
        invariant
            index <= binders.len(),
            types@.wf(),
            extends(old(types)@, types@),
            are_binders(types@, ids@, binders@.take(index as int)),
            types@ == old(types)@.with_binders(binders@.take(index as int)),
        decreases binders.len() - index,
    {
        let ghost before = types@;
        let ghost known = ids@;
        let id = types.intern_forall_binder(binders[index]);
        ids.push(id);
        proof {
            lemma_extends_transitive(old(types)@, before, types@);
            lemma_binders_extend(before, types@, known, binders@.take(index as int));
            let taken = binders@.take(index + 1);
            assert(taken.drop_last() =~= binders@.take(index as int));
            assert forall|i: int| 0 <= i < ids@.len() implies types@.denotes_binder(
                #[trigger] ids@[i],
                taken[i],
            ) by {
                if i < index {
                    assert(types@.denotes_binder(known[i], binders@.take(index as int)[i]));
                }
            }
        }
        index += 1;
    }
    assert(binders@.take(index as int) =~= binders@);
    ids
}

fn intern_rigids(types: &mut Types, binders: &Vec<ForallBinder>, depth: Depth) -> (ids: Vec<TypeId>)
    requires
        old(types)@.wf(),
    ensures
        final(types)@.wf(),
        extends(old(types)@, final(types)@),
        (final(types)@, ids@) == old(types)@.with_rigids(binders@, depth),
        are_rigids(final(types)@, ids@, binders@, depth),
{
    let mut ids: Vec<TypeId> = Vec::new();
    let mut index: usize = 0;
    proof {
        lemma_extends_reflexive(types@);
    }
    while index < binders.len()
        invariant
            index <= binders.len(),
            types@.wf(),
            extends(old(types)@, types@),
            are_rigids(types@, ids@, binders@.take(index as int), depth),
            (types@, ids@) == old(types)@.with_rigids(binders@.take(index as int), depth),
        decreases binders.len() - index,
    {
        let ghost before = types@;
        let ghost known = ids@;
        let id = types.intern_rigid(binders[index].name, depth, binders[index].kind);
        ids.push(id);
        proof {
            lemma_extends_transitive(old(types)@, before, types@);
            lemma_rigids_extend(before, types@, known, binders@.take(index as int), depth);
            let taken = binders@.take(index + 1);
            assert(taken.drop_last() =~= binders@.take(index as int));
            assert forall|i: int| 0 <= i < ids@.len() implies types@.denotes(
                #[trigger] ids@[i],
                Type::Rigid(taken[i].name, depth, taken[i].kind),
            ) by {
                if i < index {
                    let rest = binders@.take(index as int);
                    assert(types@.denotes(known[i], Type::Rigid(rest[i].name, depth, rest[i].kind)));
                }
            }
        }
        index += 1;
    }
    assert(binders@.take(index as int) =~= binders@);
    ids
}

/// The head of a data type or a class.
#[derive(Debug)]
pub struct TypeHead {
    /// The constructor, applied to its kinds.
    pub reference: TypeId,
    /// The reference, applied to its parameters.
    pub applied: TypeId,
    pub kind_binders: Vec<ForallBinderId>,
    pub type_parameters: Vec<ForallBinderId>,
}

/// Binders that are not visible.
pub open spec fn hidden(binders: Seq<ForallBinder>) -> Seq<ForallBinder> {
    Seq::new(binders.len(), |i: int| ForallBinder { visible: false, ..binders[i] })
}

/// The constructor applied to its kinds and parameters.
pub open spec fn is_reference(
    store: TypeStore,
    file: FileId,
    item: TypeItemId,
    depth: Depth,
    kinds: Seq<ForallBinder>,
    reference: TypeId,
) -> bool {
    exists|constructor: TypeId, rigids: Seq<TypeId>|
        {
            &&& #[trigger] store.denotes(constructor, Type::Constructor(file, item))
            &&& #[trigger] are_rigids(store, rigids, kinds, depth)
            &&& store.is_kind_application(reference, constructor, rigids)
        }
}

/// The head has the kinds and the parameters, which have the kinds given.
pub open spec fn is_head(
    store: TypeStore,
    file: FileId,
    item: TypeItemId,
    depth: Depth,
    kinds: Seq<ForallBinder>,
    interned_kinds: Seq<ForallBinder>,
    parameters: Seq<ForallBinder>,
    given: Seq<TypeId>,
    head: TypeHead,
) -> bool {
    &&& is_reference(store, file, item, depth, kinds, head.reference)
    &&& are_binders(store, head.kind_binders@, interned_kinds)
    &&& exists|generalised: Seq<ForallBinder>, rigids: Seq<TypeId>|
        {
            &&& #[trigger] has_generalised(store, parameters, given, generalised)
            &&& are_binders(store, head.type_parameters@, generalised)
            &&& #[trigger] are_rigids(store, rigids, generalised, depth)
            &&& store.is_application(head.applied, head.reference, rigids)
        }
}

/// The store with a head, and the identities of the type that is applied to its kinds
/// and of the one that is applied to its parameters as well.
pub open spec fn with_head(
    store: TypeStore,
    file: FileId,
    item: TypeItemId,
    depth: Depth,
    kinds: Seq<ForallBinder>,
    interned_kinds: Seq<ForallBinder>,
    parameters: Seq<ForallBinder>,
    given: Seq<TypeId>,
) -> (TypeStore, TypeId, TypeId) {
    let constructor = Type::Constructor(file, item);
    let held = store.with_type(constructor);
    let (with_kinds, kind_rigids) = held.with_rigids(kinds, depth);
    let (referred, reference) = with_kinds.with_kind_applications(
        held.identity(constructor),
        kind_rigids,
    );
    let (known, generalised) = with_generalised(
        referred.with_binders(interned_kinds),
        parameters,
        given,
    );
    let (with_parameters, rigids) = known.with_binders(generalised).with_rigids(
        generalised,
        depth,
    );
    let (last, applied) = with_parameters.with_applications(reference, rigids);
    (last, reference, applied)
}

/// The head of a type whose kind has been generalised: over `kinds`, with the
/// parameters' kinds given. `hide` tells whether the kinds stay hidden where they
/// are quantified over.
pub fn type_head(
    state: &CheckState,
    types: &mut Types,
    file: FileId,
    item: TypeItemId,
    kinds: &Vec<ForallBinder>,
    parameters: &Vec<ForallBinder>,
    given: &Vec<TypeId>,
    hide: bool,
) -> (head: TypeHead)
    requires
        old(types)@.wf(),
    ensures
        final(types)@.wf(),
        extends(old(types)@, final(types)@),
        (final(types)@, head.reference, head.applied) == with_head(
            old(types)@,
            file,
            item,
            state.depth,
            kinds@,
            if hide {
                hidden(kinds@)
            } else {
                kinds@
            },
            parameters@,
            given@,
        ),
        is_head(
            final(types)@,
            file,
            item,
            state.depth,
            kinds@,
            if hide {
                hidden(kinds@)
            } else {
                kinds@
            },
            parameters@,
            given@,
            head,
        ),
{
    broadcast use group_extends;

    let constructor = types.intern_type(Type::Constructor(file, item));
    let ghost s0 = types@;
    let kind_rigids = intern_rigids(types, kinds, state.depth);
    let ghost s1 = types@;
    let reference = types.intern_kind_applications(constructor, &kind_rigids);
    let ghost s2 = types@;
    let quantified = if hide {
        hide_binders(kinds)
    } else {
        copy_all(kinds)
    };
    let kind_binders = intern_binders(types, &quantified);
    let ghost s3 = types@;
    let generalised = generalised_parameters(types, parameters, given);
    let ghost s4 = types@;
    let type_parameters = intern_binders(types, &generalised);
    let ghost s5 = types@;
    let rigids = intern_rigids(types, &generalised, state.depth);
    let ghost s6 = types@;
    let applied = types.intern_applications(reference, &rigids);
    let head = TypeHead { reference, applied, kind_binders, type_parameters };
    proof {
        let last = types@;
        assert(extends(s5, last)) by {
            lemma_extends_transitive(s5, s6, last);
        }
        assert(extends(s4, last)) by {
            lemma_extends_transitive(s4, s5, last);
        }
        assert(extends(s3, last)) by {
            lemma_extends_transitive(s3, s4, last);
        }
        assert(extends(s2, last)) by {
            lemma_extends_transitive(s2, s3, last);
        }
        assert(extends(s1, last)) by {
            lemma_extends_transitive(s1, s2, last);
        }
        assert(extends(s0, last)) by {
            lemma_extends_transitive(s0, s1, last);
        }
        assert(extends(old(types)@, last)) by {
            lemma_extends_transitive(old(types)@, s0, last);
        }
        assert(last.denotes(constructor, Type::Constructor(file, item)));
        lemma_rigids_extend(s1, last, kind_rigids@, kinds@, state.depth);
        assert(s2.is_kind_application(reference, constructor, kind_rigids@));
        lemma_binders_extend(s3, last, kind_binders@, quantified@);
        lemma_generalised_extends(s4, last, parameters@, given@, generalised@);
        lemma_binders_extend(s5, last, type_parameters@, generalised@);
        lemma_rigids_extend(s6, last, rigids@, generalised@, state.depth);
        assert(is_reference(last, file, item, state.depth, kinds@, reference));
    }
    head
}

fn hide_binders(binders: &Vec<ForallBinder>) -> (hidden_binders: Vec<ForallBinder>)
    ensures
        hidden_binders@ == hidden(binders@),
{
    let mut hidden_binders: Vec<ForallBinder> = Vec::new();
    let mut index: usize = 0;
    while index < binders.len()
        invariant
            index <= binders.len(),
            hidden_binders@.len() == index,
            forall|i: int|
                0 <= i < index ==> hidden_binders@[i] == (ForallBinder {
                    visible: false,
                    ..binders@[i]
                }),
        decreases binders.len() - index,
    {
        hidden_binders.push(ForallBinder { visible: false, ..binders[index] });
        index += 1;
    }
    assert(hidden_binders@ =~= hidden(binders@));
    hidden_binders
}

/// The type quantified over the kinds and the parameters of a head.
pub open spec fn is_quantified(store: TypeStore, head: TypeHead, id: TypeId, body: TypeId) -> bool {
    exists|inner: TypeId|
        #[trigger] store.is_forall(inner, head.type_parameters@, body) && store.is_forall(
            id,
            head.kind_binders@,
            inner,
        )
}

/// The store with a type quantified over the kinds and the parameters of a head, and the
/// identity of that type.
pub open spec fn with_quantified(store: TypeStore, head: TypeHead, body: TypeId) -> (
    TypeStore,
    TypeId,
) {
    let (held, inner) = store.with_foralls(head.type_parameters@, body);
    held.with_foralls(head.kind_binders@, inner)
}

fn quantify(types: &mut Types, head: &TypeHead, body: TypeId) -> (id: TypeId)
    requires
        old(types)@.wf(),
    ensures
        final(types)@.wf(),
        extends(old(types)@, final(types)@),
        (final(types)@, id) == with_quantified(old(types)@, *head, body),
        is_quantified(final(types)@, *head, id, body),
{
    broadcast use group_extends;

    let inner = types.intern_foralls(&head.type_parameters, body);
    let ghost before = types@;
    let id = types.intern_foralls(&head.kind_binders, inner);
    assert(types@.is_forall(inner, head.type_parameters@, body)) by {
        assert(before.is_forall(inner, head.type_parameters@, body));
    }
    id
}

proof fn lemma_head_extends(
    before: TypeStore,
    after: TypeStore,
    file: FileId,
    item: TypeItemId,
    depth: Depth,
    kinds: Seq<ForallBinder>,
    interned_kinds: Seq<ForallBinder>,
    parameters: Seq<ForallBinder>,
    given: Seq<TypeId>,
    head: TypeHead,
)
    requires
        extends(before, after),
        is_head(before, file, item, depth, kinds, interned_kinds, parameters, given, head),
    ensures
        is_head(after, file, item, depth, kinds, interned_kinds, parameters, given, head),
{
    broadcast use group_extends;

    let (constructor, kind_rigids) = choose|constructor: TypeId, rigids: Seq<TypeId>|
        {
            &&& #[trigger] before.denotes(constructor, Type::Constructor(file, item))
            &&& #[trigger] are_rigids(before, rigids, kinds, depth)
            &&& before.is_kind_application(head.reference, constructor, rigids)
        };
    assert(after.denotes(constructor, Type::Constructor(file, item)));
    lemma_rigids_extend(before, after, kind_rigids, kinds, depth);
    lemma_binders_extend(before, after, head.kind_binders@, interned_kinds);
    let (generalised, rigids) = choose|generalised: Seq<ForallBinder>, rigids: Seq<TypeId>|
        {
            &&& #[trigger] has_generalised(before, parameters, given, generalised)
            &&& are_binders(before, head.type_parameters@, generalised)
            &&& #[trigger] are_rigids(before, rigids, generalised, depth)
            &&& before.is_application(head.applied, head.reference, rigids)
        };
    lemma_generalised_extends(before, after, parameters, given, generalised);
    lemma_binders_extend(before, after, head.type_parameters@, generalised);
    lemma_rigids_extend(before, after, rigids, generalised, depth);
}

proof fn lemma_quantified_extends(
    before: TypeStore,
    after: TypeStore,
    head: TypeHead,
    id: TypeId,
    body: TypeId,
)
    requires
        extends(before, after),
        is_quantified(before, head, id, body),
    ensures
        is_quantified(after, head, id, body),
{
    broadcast use group_extends;

    let inner = choose|inner: TypeId|
        #[trigger] before.is_forall(inner, head.type_parameters@, body) && before.is_forall(
            id,
            head.kind_binders@,
            inner,
        );
    assert(after.is_forall(inner, head.type_parameters@, body));
}

/// The types of items with those of more items.
pub open spec fn with_types(
    known: Map<u64, TypeId>,
    items: Seq<TermItemId>,
    types: Seq<TypeId>,
) -> Map<u64, TypeId>
    decreases items.len(),
{
    if items.len() == 0 {
        known
    } else {
        with_types(known, items.drop_last(), types.drop_last()).insert(
            items.last().raw as u64,
            types.last(),
        )
    }
}

// Data types

/// The type of a constructor: from its arguments to the type, quantified over the
/// type's kinds and parameters.
pub open spec fn is_constructor_type(
    store: TypeStore,
    head: TypeHead,
    arguments: Seq<TypeId>,
    id: TypeId,
) -> bool {
    exists|body: TypeId|
        #[trigger] store.is_function(body, arguments, head.applied) && is_quantified(
            store,
            head,
            id,
            body,
        )
}

/// The store with the type of a constructor.
pub open spec fn with_constructor(
    store: TypeStore,
    head: TypeHead,
    arguments: Seq<TypeId>,
) -> TypeStore {
    let (held, body) = store.with_functions(arguments, head.applied);
    with_quantified(held, head, body).0
}

/// The store with the types of constructors, one after the other.
pub open spec fn with_constructors(
    store: TypeStore,
    head: TypeHead,
    constructors: Seq<(TermItemId, Vec<TypeId>)>,
) -> TypeStore
    decreases constructors.len(),
{
    if constructors.len() == 0 {
        store
    } else {
        with_constructor(
            with_constructors(store, head, constructors.drop_last()),
            head,
            constructors.last().1@,
        )
    }
}

/// Finishes a constructor.
fn finalise_constructor(
    state: &mut CheckState,
    types: &mut Types,
    head: &TypeHead,
    constructor_id: TermItemId,
    arguments: Vec<TypeId>,
) -> (declaration: TermDeclarationId)
    requires
        old(types)@.wf(),
        old(state).checked.tree@.term_declarations.len() <= u32::MAX,
        constructor_id.raw < usize::MAX,
    ensures
        final(types)@.wf(),
        extends(old(types)@, final(types)@),
        final(types)@ == with_constructor(old(types)@, *head, arguments@),
        declaration.raw == old(state).checked.tree@.term_declarations.len(),
        exists|type_id: TypeId|
            {
                &&& #[trigger] is_constructor_type(final(types)@, *head, arguments@, type_id)
                &&& final(state).checked.term_item_types@ == old(
                    state,
                ).checked.term_item_types@.insert(constructor_id.raw as u64, type_id)
                &&& final(state).checked.tree@ == declared(
                    old(state).checked.tree@,
                    constructor_id,
                    TermDeclaration {
                        type_id,
                        kind: TermDeclarationKind::Constructor(DataConstructor { arguments }),
                    },
                )
            },
        *final(state) == (CheckState {
            checked: CheckedModule {
                tree: final(state).checked.tree,
                term_item_types: final(state).checked.term_item_types,
                ..old(state).checked
            },
            ..*old(state)
        }),
{
    broadcast use group_extends;

    let body = types.intern_function_list(&arguments, head.applied);
    let ghost before = types@;
    let type_id = quantify(types, head, body);
    proof {
        assert(before.is_function(body, arguments@, head.applied));
        assert(extends(before, types@));
        assert(types@.is_function(body, arguments@, head.applied));
        assert(is_constructor_type(types@, *head, arguments@, type_id));
    }
    state.checked.term_item_types.insert(constructor_id.raw as u64, type_id);
    let declaration = TermDeclaration {
        type_id,
        kind: TermDeclarationKind::Constructor(DataConstructor { arguments }),
    };
    let id = state.checked.tree.insert_term(constructor_id, declaration);
    assert(state.checked.tree@ == declared(
        old(state).checked.tree@,
        constructor_id,
        declaration,
    ));
    id
}

/// The tree with the declaration of a type.
pub open spec fn type_declared(tree: Tree, item_id: TypeItemId, declaration: TypeDeclaration) -> Tree {
    Tree {
        type_declarations: tree.type_declarations.push(declaration),
        types: tree.types.insert(
            item_id.raw,
            TypeDeclarationId { raw: tree.type_declarations.len() as u32 },
        ),
        ..tree
    }
}

/// The declaration is that of the data type or newtype, with the roles that have been
/// recorded for it.
pub open spec fn is_data_declaration(
    declaration: TypeDeclaration,
    newtype: bool,
    kind: TypeId,
    roles: Seq<Role>,
    parameters: Vec<ForallBinderId>,
    constructors: Vec<TermDeclarationId>,
) -> bool {
    let data = DataDeclaration { parameters, constructors };
    &&& declaration.kind == kind
    &&& declaration.roles@ == roles
    &&& declaration.declaration == (if newtype {
        TypeDeclarationKind::Newtype(data)
    } else {
        TypeDeclarationKind::Data(data)
    })
}

/// The roles that have been recorded for a type.
pub open spec fn recorded_roles(checked: CheckedModule, item_id: TypeItemId) -> Seq<Role> {
    if checked.roles@.contains_key(item_id.raw as u64) {
        checked.roles@[item_id.raw as u64]@
    } else {
        Seq::empty()
    }
}

/// At most the entry of one type has changed, and there is one.
pub open spec fn entered<V>(before: Map<u64, V>, after: Map<u64, V>, item_id: TypeItemId) -> bool {
    let key = item_id.raw as u64;
    after.contains_key(key) && after == before.insert(key, after[key])
}

/// Records the roles of a type's parameters.
pub fn record_roles(state: &mut CheckState, item_id: TypeItemId, roles: Vec<Role>)
    ensures
        final(state).checked.roles@ == old(state).checked.roles@.insert(
            item_id.raw as u64,
            roles,
        ),
        *final(state) == (CheckState {
            checked: CheckedModule { roles: final(state).checked.roles, ..old(state).checked },
            ..*old(state)
        }),
{
    state.checked.roles.insert(item_id.raw as u64, roles);
}

/// Records what a synonym stands for, where its kind is known.
pub fn record_synonym(
    state: &mut CheckState,
    item_id: TypeItemId,
    parameters: Vec<ForallBinder>,
    expansion: TypeId,
)
    ensures
        ({
            let kinds = old(state).checked.type_item_kinds@;
            let key = item_id.raw as u64;
            if kinds.contains_key(key) {
                &&& final(state).checked.synonyms@ == old(state).checked.synonyms@.insert(
                    key,
                    CheckedSynonym { kind: kinds[key], parameters, expansion },
                )
                &&& *final(state) == (CheckState {
                    checked: CheckedModule {
                        synonyms: final(state).checked.synonyms,
                        ..old(state).checked
                    },
                    ..*old(state)
                })
            } else {
                *final(state) == *old(state)
            }
        }),
{
    let kind = match state.checked.type_item_kinds.get(item_id.raw as u64) {
        Some(kind) => *kind,
        None => {
            return;
        },
    };
    state.checked.synonyms.insert(
        item_id.raw as u64,
        CheckedSynonym { kind, parameters, expansion },
    );
}

/// Declares a data type or a newtype whose constructors have been finished.
fn declare_data(
    state: &mut CheckState,
    item_id: TypeItemId,
    newtype: bool,
    kind: TypeId,
    parameters: Vec<ForallBinderId>,
    constructors: Vec<TermDeclarationId>,
)
    requires
        old(state).checked.tree@.type_declarations.len() <= u32::MAX,
        item_id.raw < usize::MAX,
    ensures
        *final(state) == (CheckState {
            checked: CheckedModule {
                tree: final(state).checked.tree,
                data_declarations: final(state).checked.data_declarations,
                ..old(state).checked
            },
            ..*old(state)
        }),
        entered(
            old(state).checked.data_declarations@,
            final(state).checked.data_declarations@,
            item_id,
        ),
        final(state).checked.data_declarations@[item_id.raw as u64].type_parameters@
            == parameters@,
        exists|declaration: TypeDeclaration|
            #[trigger] is_data_declaration(
                declaration,
                newtype,
                kind,
                recorded_roles(old(state).checked, item_id),
                parameters,
                constructors,
            ) && final(state).checked.tree@ == type_declared(
                old(state).checked.tree@,
                item_id,
                declaration,
            ),
{
    let key: u64 = item_id.raw as u64;
    let type_parameters = copy_all(&parameters);
    state.checked.data_declarations.insert(key, CheckedDataDeclaration { type_parameters });
    let roles = match state.checked.roles.get(key) {
        Some(roles) => copy_all(roles),
        None => Vec::new(),
    };
    assert(roles@ =~= recorded_roles(old(state).checked, item_id));
    let data = DataDeclaration { parameters, constructors };
    let declaration = if newtype {
        TypeDeclarationKind::Newtype(data)
    } else {
        TypeDeclarationKind::Data(data)
    };
    let declaration = TypeDeclaration { kind, roles, declaration };
    assert(is_data_declaration(
        declaration,
        newtype,
        kind,
        recorded_roles(old(state).checked, item_id),
        parameters,
        constructors,
    ));
    state.checked.tree.insert_type_declaration(item_id, declaration);
}

/// A data type or a newtype whose kind has been generalised.
pub struct ResolvedData {
    pub item_id: TypeItemId,
    pub newtype: bool,
    pub kind: TypeId,
    pub head: TypeHead,
    /// The constructors with their arguments. There, references to the type have been
    /// applied to the type's kinds.
    pub constructors: Vec<(TermItemId, Vec<TypeId>)>,
}

/// The items of constructors.
pub open spec fn constructor_items(constructors: Seq<(TermItemId, Vec<TypeId>)>) -> Seq<TermItemId> {
    constructors.map_values(|constructor: (TermItemId, Vec<TypeId>)| constructor.0)
}

/// The constructors have the types.
pub open spec fn are_constructor_types(
    store: TypeStore,
    head: TypeHead,
    constructors: Seq<(TermItemId, Vec<TypeId>)>,
    types: Seq<TypeId>,
) -> bool {
    &&& types.len() == constructors.len()
    &&& forall|i: int|
        0 <= i < types.len() ==> is_constructor_type(
            store,
            head,
            constructors[i].1@,
            #[trigger] types[i],
        )
}

/// The tree with the declarations of constructors.
pub open spec fn constructors_declared(
    tree: Tree,
    constructors: Seq<(TermItemId, Vec<TypeId>)>,
    types: Seq<TypeId>,
) -> Tree
    decreases constructors.len(),
{
    if constructors.len() == 0 {
        tree
    } else {
        let (item, arguments) = constructors.last();
        declared(
            constructors_declared(tree, constructors.drop_last(), types.drop_last()),
            item,
            TermDeclaration {
                type_id: types.last(),
                kind: TermDeclarationKind::Constructor(DataConstructor { arguments }),
            },
        )
    }
}

/// The declarations that come next.
pub open spec fn next_declarations(tree: Tree, count: nat) -> Seq<TermDeclarationId> {
    Seq::new(
        count,
        |i: int| TermDeclarationId { raw: (tree.term_declarations.len() + i) as u32 },
    )
}

/// The data type has been declared with its constructors, which have the types.
pub open spec fn is_data_finalised(
    before: CheckState,
    after: CheckState,
    store: TypeStore,
    data: ResolvedData,
    types: Seq<TypeId>,
    declaration: TypeDeclaration,
    constructors: Vec<TermDeclarationId>,
) -> bool {
    &&& are_constructor_types(store, data.head, data.constructors@, types)
    &&& constructors@ == next_declarations(before.checked.tree@, data.constructors@.len())
    &&& is_data_declaration(
        declaration,
        data.newtype,
        data.kind,
        recorded_roles(before.checked, data.item_id),
        data.head.type_parameters,
        constructors,
    )
    &&& after.checked.tree@ == type_declared(
        constructors_declared(before.checked.tree@, data.constructors@, types),
        data.item_id,
        declaration,
    )
    &&& after.checked.term_item_types@ == with_types(
        before.checked.term_item_types@,
        constructor_items(data.constructors@),
        types,
    )
    &&& entered(
        before.checked.data_declarations@,
        after.checked.data_declarations@,
        data.item_id,
    )
    &&& after.checked.data_declarations@[data.item_id.raw as u64].type_parameters@
        == data.head.type_parameters@
    &&& after == (CheckState {
        checked: CheckedModule {
            tree: after.checked.tree,
            term_item_types: after.checked.term_item_types,
            data_declarations: after.checked.data_declarations,
            ..before.checked
        },
        ..before
    })
}

proof fn lemma_constructor_types_extend(
    before: TypeStore,
    after: TypeStore,
    head: TypeHead,
    constructors: Seq<(TermItemId, Vec<TypeId>)>,
    types: Seq<TypeId>,
)
    requires
        extends(before, after),
        are_constructor_types(before, head, constructors, types),
    ensures
        are_constructor_types(after, head, constructors, types),
{
    broadcast use group_extends;

    assert forall|i: int| 0 <= i < types.len() implies is_constructor_type(
        after,
        head,
        constructors[i].1@,
        #[trigger] types[i],
    ) by {
        let arguments = constructors[i].1@;
        let body = choose|body: TypeId|
            #[trigger] before.is_function(body, arguments, head.applied) && is_quantified(
                before,
                head,
                types[i],
                body,
            );
        assert(after.is_function(body, arguments, head.applied));
        lemma_quantified_extends(before, after, head, types[i], body);
    }
}

/// Declares a data type or a newtype with its constructors.
pub fn finalise_data(state: &mut CheckState, types: &mut Types, data: ResolvedData)
    requires
        old(types)@.wf(),
        old(state).checked.tree@.term_declarations.len() + data.constructors@.len()
            <= u32::MAX + 1,
        forall|i: int|
            0 <= i < data.constructors@.len() ==> (#[trigger] data.constructors@[i]).0.raw
                < usize::MAX,
        old(state).checked.tree@.type_declarations.len() <= u32::MAX,
        data.item_id.raw < usize::MAX,
    ensures
        final(types)@.wf(),
        extends(old(types)@, final(types)@),
        final(types)@ == with_constructors(old(types)@, data.head, data.constructors@),
        exists|
            constructor_types: Seq<TypeId>,
            declaration: TypeDeclaration,
            constructors: Vec<TermDeclarationId>,
        | #[trigger]
            is_data_finalised(
                *old(state),
                *final(state),
                final(types)@,
                data,
                constructor_types,
                declaration,
                constructors,
            ),
{
    let ResolvedData { item_id, newtype, kind, head, constructors: sources } = data;
    let ghost begun = *state;
    let ghost all = sources@;
    let ghost mut done: Seq<TypeId> = Seq::empty();
    let mut constructors: Vec<TermDeclarationId> = Vec::new();
    proof {
        lemma_extends_reflexive(types@);
        assert(all.take(0) =~= Seq::empty());
        assert(constructor_items(all.take(0)) =~= Seq::empty());
    }
    for source in iter: sources
        invariant
            iter.seq() == all,
            types@.wf(),
            extends(old(types)@, types@),
            types@ == with_constructors(old(types)@, head, all.take(iter.index() as int)),
            begun.checked.tree@.term_declarations.len() + all.len() <= u32::MAX + 1,
            forall|i: int| 0 <= i < all.len() ==> (#[trigger] all[i]).0.raw < usize::MAX,
            are_constructor_types(types@, head, all.take(iter.index() as int), done),
            constructors@ =~= next_declarations(begun.checked.tree@, iter.index() as nat),
            state.checked.tree@ == constructors_declared(
                begun.checked.tree@,
                all.take(iter.index() as int),
                done,
            ),
            state.checked.tree@.term_declarations.len()
                == begun.checked.tree@.term_declarations.len() + iter.index(),
            state.checked.tree@.type_declarations == begun.checked.tree@.type_declarations,
            state.checked.term_item_types@ == with_types(
                begun.checked.term_item_types@,
                constructor_items(all.take(iter.index() as int)),
                done,
            ),
            *state == (CheckState {
                checked: CheckedModule {
                    tree: state.checked.tree,
                    term_item_types: state.checked.term_item_types,
                    ..begun.checked
                },
                ..begun
            }),
    {
        let ghost index = iter.index() as int;
        let ghost before = types@;
        let ghost known = state.checked.term_item_types@;
        let (constructor_id, arguments) = source;
        assert(source == all[index]);
        let declaration = finalise_constructor(state, types, &head, constructor_id, arguments);
        constructors.push(declaration);
        proof {
            let type_id = choose|type_id: TypeId|
                #[trigger] is_constructor_type(types@, head, arguments@, type_id)
                    && state.checked.term_item_types@ == known.insert(
                    constructor_id.raw as u64,
                    type_id,
                ) && state.checked.tree@ == declared(
                    constructors_declared(begun.checked.tree@, all.take(index), done),
                    constructor_id,
                    TermDeclaration {
                        type_id,
                        kind: TermDeclarationKind::Constructor(DataConstructor { arguments }),
                    },
                );
            lemma_constructor_types_extend(before, types@, head, all.take(index), done);
            lemma_extends_transitive(old(types)@, before, types@);
            let next = all.take(index + 1);
            let found = done.push(type_id);
            assert(next.drop_last() =~= all.take(index));
            assert(found.drop_last() =~= done);
            assert(constructor_items(next).drop_last() =~= constructor_items(all.take(index)));
            assert(are_constructor_types(types@, head, next, found)) by {
                assert forall|i: int| 0 <= i < found.len() implies is_constructor_type(
                    types@,
                    head,
                    next[i].1@,
                    #[trigger] found[i],
                ) by {
                    if i < index {
                        assert(found[i] == done[i]);
                        assert(next[i] == all.take(index)[i]);
                    }
                }
            }
            done = found;
        }
    }
    assert(all.take(all.len() as int) =~= all);
    let ghost finished = *state;
    let ghost parameters = head.type_parameters;
    let ghost declared_constructors = constructors;
    declare_data(state, item_id, newtype, kind, head.type_parameters, constructors);
    proof {
        let declaration = choose|declaration: TypeDeclaration|
            #[trigger] is_data_declaration(
                declaration,
                newtype,
                kind,
                recorded_roles(finished.checked, item_id),
                parameters,
                declared_constructors,
            ) && state.checked.tree@ == type_declared(
                finished.checked.tree@,
                item_id,
                declaration,
            );
        assert(is_data_finalised(
            begun,
            *state,
            types@,
            data,
            done,
            declaration,
            declared_constructors,
        ));
    }
}

// Classes

/// The superclasses as the tree has them.
pub open spec fn class_superclasses(
    file: FileId,
    item_id: TypeItemId,
    superclasses: Seq<CheckedSuperclass>,
) -> Seq<ClassSuperclass> {
    Seq::new(
        superclasses.len(),
        |i: int|
            ClassSuperclass {
                id: SuperclassId {
                    file_id: file,
                    type_id: item_id,
                    source_id: superclasses[i].source_id,
                },
                constraint: superclasses[i].constraint,
            },
    )
}

fn tree_superclasses(file: FileId, item_id: TypeItemId, superclasses: &Vec<CheckedSuperclass>) -> (
all: Vec<ClassSuperclass>)
    ensures
        all@ == class_superclasses(file, item_id, superclasses@),
{
    let mut all: Vec<ClassSuperclass> = Vec::new();
    let mut index: usize = 0;
    while index < superclasses.len()
        invariant
            index <= superclasses.len(),
            all@.len() == index,
            forall|i: int|
                0 <= i < index ==> all@[i] == class_superclasses(file, item_id, superclasses@)[i],
        decreases superclasses.len() - index,
    {
        let id = SuperclassId {
            file_id: file,
            type_id: item_id,
            source_id: superclasses[index].source_id,
        };
        all.push(ClassSuperclass { id, constraint: superclasses[index].constraint });
        index += 1;
    }
    assert(all@ =~= class_superclasses(file, item_id, superclasses@));
    all
}

/// The type of a class's member outside of the class: its own type under the class
/// constraint, quantified over the class's kinds and parameters.
pub open spec fn is_selector_type(
    store: TypeStore,
    head: TypeHead,
    field_type: TypeId,
    id: TypeId,
) -> bool {
    exists|body: TypeId|
        #[trigger] store.denotes(body, Type::Constrained(head.applied, field_type))
            && is_quantified(store, head, id, body)
}

/// The store with the type of a class's member outside of the class.
pub open spec fn with_selector(store: TypeStore, head: TypeHead, field_type: TypeId) -> TypeStore {
    let body = Type::Constrained(head.applied, field_type);
    let held = store.with_type(body);
    with_quantified(held, head, held.identity(body)).0
}

/// The store with the types of members, one after the other.
pub open spec fn with_selectors(
    store: TypeStore,
    head: TypeHead,
    members: Seq<ClassMember>,
) -> TypeStore
    decreases members.len(),
{
    if members.len() == 0 {
        store
    } else {
        with_selector(
            with_selectors(store, head, members.drop_last()),
            head,
            members.last().field_type,
        )
    }
}

/// The store with the types of a class that has the head.
pub open spec fn with_class(
    store: TypeStore,
    file: FileId,
    depth: Depth,
    class: ResolvedClass,
    head: TypeHead,
) -> TypeStore {
    let (held, _, _) = with_head(
        store,
        file,
        class.item_id,
        depth,
        class.kinds@,
        class.kinds@,
        class.parameters@,
        class.given@,
    );
    with_selectors(with_quantified(held, head, head.applied).0, head, class.members@)
}

/// Gives a member of a class its type outside of the class.
fn finalise_class_member(
    state: &mut CheckState,
    types: &mut Types,
    head: &TypeHead,
    member_id: TermItemId,
    field_type: TypeId,
)
    requires
        old(types)@.wf(),
    ensures
        final(types)@.wf(),
        extends(old(types)@, final(types)@),
        final(types)@ == with_selector(old(types)@, *head, field_type),
        exists|selector: TypeId|
            #[trigger] is_selector_type(final(types)@, *head, field_type, selector)
                && final(state).checked.term_item_types@ == old(
                state,
            ).checked.term_item_types@.insert(member_id.raw as u64, selector),
        *final(state) == (CheckState {
            checked: CheckedModule {
                term_item_types: final(state).checked.term_item_types,
                ..old(state).checked
            },
            ..*old(state)
        }),
{
    broadcast use group_extends;

    let body = types.intern_constrained(head.applied, field_type);
    let ghost before = types@;
    let selector = quantify(types, head, body);
    proof {
        assert(before.denotes(body, Type::Constrained(head.applied, field_type)));
        assert(extends(before, types@));
        assert(types@.denotes(body, Type::Constrained(head.applied, field_type)));
        assert(is_selector_type(types@, *head, field_type, selector));
    }
    state.checked.term_item_types.insert(member_id.raw as u64, selector);
}

/// The members as the class has them.
pub open spec fn checked_members(members: Seq<ClassMember>) -> Seq<CheckedClassMember> {
    Seq::new(
        members.len(),
        |i: int|
            CheckedClassMember { item_id: members[i].source, field_type: members[i].field_type },
    )
}

fn class_members(members: &Vec<ClassMember>) -> (all: Vec<CheckedClassMember>)
    ensures
        all@ == checked_members(members@),
{
    let mut all: Vec<CheckedClassMember> = Vec::new();
    let mut index: usize = 0;
    while index < members.len()
        invariant
            index <= members.len(),
            all@.len() == index,
            forall|i: int| 0 <= i < index ==> all@[i] == checked_members(members@)[i],
        decreases members.len() - index,
    {
        let member = members[index];
        all.push(CheckedClassMember { item_id: member.source, field_type: member.field_type });
        index += 1;
    }
    assert(all@ =~= checked_members(members@));
    all
}

/// The class has the head, its type as a constraint, its superclasses and members.
pub open spec fn is_checked_class(
    class: CheckedClass,
    head: TypeHead,
    canonical: TypeId,
    superclasses: Vec<CheckedSuperclass>,
    functional_dependencies: Vec<FunctionalDependency>,
    members: Seq<ClassMember>,
) -> bool {
    &&& class.kind_binders@ == head.kind_binders@
    &&& class.type_parameters@ == head.type_parameters@
    &&& class.canonical == canonical
    &&& class.superclasses == superclasses
    &&& class.functional_dependencies == functional_dependencies
    &&& class.members@ == checked_members(members)
}

/// Records and declares a class whose members have been finished.
fn declare_class(
    state: &mut CheckState,
    file: FileId,
    item_id: TypeItemId,
    kind: TypeId,
    head: TypeHead,
    canonical: TypeId,
    superclasses: Vec<CheckedSuperclass>,
    functional_dependencies: Vec<FunctionalDependency>,
    members: Vec<ClassMember>,
)
    requires
        old(state).checked.tree@.type_declarations.len() <= u32::MAX,
        item_id.raw < usize::MAX,
    ensures
        *final(state) == (CheckState {
            checked: CheckedModule {
                tree: final(state).checked.tree,
                classes: final(state).checked.classes,
                ..old(state).checked
            },
            ..*old(state)
        }),
        entered(old(state).checked.classes@, final(state).checked.classes@, item_id),
        is_checked_class(
            final(state).checked.classes@[item_id.raw as u64],
            head,
            canonical,
            superclasses,
            functional_dependencies,
            members@,
        ),
        exists|declaration: TypeDeclaration|
            #[trigger] is_class_declaration(
                declaration,
                file,
                item_id,
                kind,
                head,
                superclasses@,
                members,
            ) && final(state).checked.tree@ == type_declared(
                old(state).checked.tree@,
                item_id,
                declaration,
            ),
{
    let declared_superclasses = tree_superclasses(file, item_id, &superclasses);
    let class = CheckedClass {
        kind_binders: copy_all(&head.kind_binders),
        type_parameters: copy_all(&head.type_parameters),
        canonical,
        superclasses,
        functional_dependencies,
        members: class_members(&members),
    };
    state.checked.classes.insert(item_id.raw as u64, class);
    let class = ClassDeclaration {
        kind_binders: head.kind_binders,
        type_parameters: head.type_parameters,
        superclasses: declared_superclasses,
        members,
    };
    let declaration = TypeDeclaration {
        kind,
        roles: Vec::new(),
        declaration: TypeDeclarationKind::Class(class),
    };
    assert(is_class_declaration(
        declaration,
        file,
        item_id,
        kind,
        head,
        superclasses@,
        members,
    ));
    state.checked.tree.insert_type_declaration(item_id, declaration);
}

/// The declaration is that of the class. Its parameters have no roles.
pub open spec fn is_class_declaration(
    declaration: TypeDeclaration,
    file: FileId,
    item_id: TypeItemId,
    kind: TypeId,
    head: TypeHead,
    superclasses: Seq<CheckedSuperclass>,
    members: Vec<ClassMember>,
) -> bool {
    &&& declaration.kind == kind
    &&& declaration.roles@.len() == 0
    &&& declaration.declaration matches TypeDeclarationKind::Class(class)
    &&& class.kind_binders == head.kind_binders
    &&& class.type_parameters == head.type_parameters
    &&& class.superclasses@ == class_superclasses(file, item_id, superclasses)
    &&& class.members == members
}

/// A class whose kind has been generalised.
pub struct ResolvedClass {
    pub item_id: TypeItemId,
    pub kind: TypeId,
    /// What the kind is quantified over.
    pub kinds: Vec<ForallBinder>,
    /// The kinds of the parameters.
    pub given: Vec<TypeId>,
    pub parameters: Vec<ForallBinder>,
    pub superclasses: Vec<CheckedSuperclass>,
    pub functional_dependencies: Vec<FunctionalDependency>,
    /// The members with their types within the class.
    pub members: Vec<ClassMember>,
}

/// The items of members.
pub open spec fn member_items(members: Seq<ClassMember>) -> Seq<TermItemId> {
    members.map_values(|member: ClassMember| member.source)
}

/// The members have the types outside of the class.
pub open spec fn are_selector_types(
    store: TypeStore,
    head: TypeHead,
    members: Seq<ClassMember>,
    types: Seq<TypeId>,
) -> bool {
    &&& types.len() == members.len()
    &&& forall|i: int|
        0 <= i < types.len() ==> is_selector_type(
            store,
            head,
            members[i].field_type,
            #[trigger] types[i],
        )
}

/// The class has been declared with the head, its type as a constraint, and its
/// members, which have the types outside of the class.
pub open spec fn is_class_finalised(
    before: CheckState,
    after: CheckState,
    store: TypeStore,
    file: FileId,
    class: ResolvedClass,
    head: TypeHead,
    canonical: TypeId,
    types: Seq<TypeId>,
    declaration: TypeDeclaration,
) -> bool {
    &&& is_head(
        store,
        file,
        class.item_id,
        before.depth,
        class.kinds@,
        class.kinds@,
        class.parameters@,
        class.given@,
        head,
    )
    &&& is_quantified(store, head, canonical, head.applied)
    &&& are_selector_types(store, head, class.members@, types)
    &&& after.checked.term_item_types@ == with_types(
        before.checked.term_item_types@,
        member_items(class.members@),
        types,
    )
    &&& entered(before.checked.classes@, after.checked.classes@, class.item_id)
    &&& is_checked_class(
        after.checked.classes@[class.item_id.raw as u64],
        head,
        canonical,
        class.superclasses,
        class.functional_dependencies,
        class.members@,
    )
    &&& is_class_declaration(
        declaration,
        file,
        class.item_id,
        class.kind,
        head,
        class.superclasses@,
        class.members,
    )
    &&& after.checked.tree@ == type_declared(
        before.checked.tree@,
        class.item_id,
        declaration,
    )
    &&& after == (CheckState {
        checked: CheckedModule {
            tree: after.checked.tree,
            term_item_types: after.checked.term_item_types,
            classes: after.checked.classes,
            ..before.checked
        },
        ..before
    })
}

proof fn lemma_selector_types_extend(
    before: TypeStore,
    after: TypeStore,
    head: TypeHead,
    members: Seq<ClassMember>,
    types: Seq<TypeId>,
)
    requires
        extends(before, after),
        are_selector_types(before, head, members, types),
    ensures
        are_selector_types(after, head, members, types),
{
    broadcast use group_extends;

    assert forall|i: int| 0 <= i < types.len() implies is_selector_type(
        after,
        head,
        members[i].field_type,
        #[trigger] types[i],
    ) by {
        let body = choose|body: TypeId|
            #[trigger] before.denotes(
                body,
                Type::Constrained(head.applied, members[i].field_type),
            ) && is_quantified(before, head, types[i], body);
        assert(after.denotes(body, Type::Constrained(head.applied, members[i].field_type)));
        lemma_quantified_extends(before, after, head, types[i], body);
    }
}

/// Records and declares a class, and gives its members their types outside of it.
pub fn finalise_class(
    state: &mut CheckState,
    types: &mut Types,
    file: FileId,
    class: ResolvedClass,
)
    requires
        old(types)@.wf(),
        old(state).checked.tree@.type_declarations.len() <= u32::MAX,
        class.item_id.raw < usize::MAX,
    ensures
        final(types)@.wf(),
        extends(old(types)@, final(types)@),
        exists|
            head: TypeHead,
            canonical: TypeId,
            selectors: Seq<TypeId>,
            declaration: TypeDeclaration,
        | #[trigger]
            is_class_finalised(
                *old(state),
                *final(state),
                final(types)@,
                file,
                class,
                head,
                canonical,
                selectors,
                declaration,
            ) && final(types)@ == with_class(old(types)@, file, old(state).depth, class, head),
{
    let ghost begun = *state;
    let ResolvedClass {
        item_id,
        kind,
        kinds,
        given,
        parameters,
        superclasses,
        functional_dependencies,
        members,
    } = class;
    let head = type_head(state, types, file, item_id, &kinds, &parameters, &given, false);
    let ghost first = types@;
    let canonical = quantify(types, &head, head.applied);
    let ghost second = types@;
    let ghost mut done: Seq<TypeId> = Seq::empty();
    let mut index: usize = 0;
    proof {
        lemma_extends_reflexive(second);
        lemma_extends_transitive(old(types)@, first, second);
        assert(members@.take(0) =~= Seq::empty());
        assert(member_items(members@.take(0)) =~= Seq::empty());
    }
    while index < members.len()
        invariant
            index <= members.len(),
            types@.wf(),
            extends(second, types@),
            types@ == with_selectors(second, head, members@.take(index as int)),
            are_selector_types(types@, head, members@.take(index as int), done),
            state.checked.term_item_types@ == with_types(
                begun.checked.term_item_types@,
                member_items(members@.take(index as int)),
                done,
            ),
            *state == (CheckState {
                checked: CheckedModule {
                    term_item_types: state.checked.term_item_types,
                    ..begun.checked
                },
                ..begun
            }),
        decreases members.len() - index,
    {
        let ghost before = types@;
        let ghost known = state.checked.term_item_types@;
        let member = members[index];
        finalise_class_member(state, types, &head, member.source, member.field_type);
        proof {
            let selector = choose|selector: TypeId|
                #[trigger] is_selector_type(types@, head, member.field_type, selector)
                    && state.checked.term_item_types@ == known.insert(
                    member.source.raw as u64,
                    selector,
                );
            let earlier = members@.take(index as int);
            let next = members@.take(index + 1);
            let found = done.push(selector);
            lemma_selector_types_extend(before, types@, head, earlier, done);
            lemma_extends_transitive(second, before, types@);
            assert(next.drop_last() =~= earlier);
            assert(found.drop_last() =~= done);
            assert(member_items(next).drop_last() =~= member_items(earlier));
            assert(are_selector_types(types@, head, next, found)) by {
                assert forall|i: int| 0 <= i < found.len() implies is_selector_type(
                    types@,
                    head,
                    next[i].field_type,
                    #[trigger] found[i],
                ) by {
                    if i < index {
                        assert(found[i] == done[i]);
                        assert(next[i] == earlier[i]);
                    }
                }
            }
            done = found;
        }
        index += 1;
    }
    proof {
        let last = types@;
        assert(members@.take(index as int) =~= members@);
        lemma_extends_transitive(old(types)@, second, last);
        lemma_extends_transitive(first, second, last);
        lemma_head_extends(
            first,
            last,
            file,
            item_id,
            begun.depth,
            kinds@,
            kinds@,
            parameters@,
            given@,
            head,
        );
        lemma_quantified_extends(second, last, head, canonical, head.applied);
    }
    let ghost used = head;
    declare_class(
        state,
        file,
        item_id,
        kind,
        head,
        canonical,
        superclasses,
        functional_dependencies,
        members,
    );
    proof {
        let declaration = choose|declaration: TypeDeclaration|
            #[trigger] is_class_declaration(
                declaration,
                file,
                item_id,
                kind,
                used,
                superclasses@,
                members,
            ) && state.checked.tree@ == type_declared(
                begun.checked.tree@,
                item_id,
                declaration,
            );
        assert(is_class_finalised(
            begun,
            *state,
            types@,
            file,
            class,
            used,
            canonical,
            done,
            declaration,
        ));
    }
}

} // verus!
