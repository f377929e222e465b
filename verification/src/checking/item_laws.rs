//! What holds of the types and declarations that items are given.

use super::error::ErrorKind;
use super::term_items::{
    all_abstractions, attached_kinds, class_bindings, evidence_abstractions, is_implemented,
    lemma_attached_once, member_type, missing_names, unsatisfied_kinds, value_kinds, ClassInfo,
    ClassMemberName, ClassMemberType, GeneralisedParameter, GeneralisedValue, InferredConstraint,
    Residual,
};
use super::derive::traversable::ApplicationArgument;
use super::tree::{DeclarationAbstraction, InstanceMember};
use super::type_items::{
    class_superclasses, hidden, is_constructor_type, is_quantified, is_selector_type, with_kinds,
    TypeHead,
};
use super::types::{FileId, ForallBinder, ForallBinderId, Type, TypeId, TypeStore};
use crate::indexing::items::{TermItemId, TypeItemId};
use vstd::prelude::*;

verus! {

// Types as they read

/// The binders of the first quantifiers of a type.
pub open spec fn binders_along(store: TypeStore, id: TypeId, count: nat) -> Seq<ForallBinderId>
    decreases count,
{
    if count == 0 || !store.has_type(id) {
        Seq::empty()
    } else {
        match store.type_at(id) {
            Type::Forall(binder, rest) => seq![binder] + binders_along(
                store,
                rest,
                (count - 1) as nat,
            ),
            _ => Seq::empty(),
        }
    }
}

/// What stands behind the first quantifiers of a type.
pub open spec fn behind_foralls(store: TypeStore, id: TypeId, count: nat) -> TypeId
    decreases count,
{
    if count == 0 || !store.has_type(id) {
        id
    } else {
        match store.type_at(id) {
            Type::Forall(_, rest) => behind_foralls(store, rest, (count - 1) as nat),
            _ => id,
        }
    }
}

/// The first arguments of a function type.
pub open spec fn arguments_along(store: TypeStore, id: TypeId, count: nat) -> Seq<TypeId>
    decreases count,
{
    if count == 0 || !store.has_type(id) {
        Seq::empty()
    } else {
        match store.type_at(id) {
            Type::Function(argument, rest) => seq![argument] + arguments_along(
                store,
                rest,
                (count - 1) as nat,
            ),
            _ => Seq::empty(),
        }
    }
}

/// What a function type gives for its first arguments.
pub open spec fn behind_arguments(store: TypeStore, id: TypeId, count: nat) -> TypeId
    decreases count,
{
    if count == 0 || !store.has_type(id) {
        id
    } else {
        match store.type_at(id) {
            Type::Function(_, rest) => behind_arguments(store, rest, (count - 1) as nat),
            _ => id,
        }
    }
}

/// A function type has its arguments in order, and its result behind them.
pub proof fn lemma_function_reads(
    store: TypeStore,
    id: TypeId,
    arguments: Seq<TypeId>,
    result: TypeId,
)
    requires
        store.is_function(id, arguments, result),
    ensures
        arguments_along(store, id, arguments.len()) == arguments,
        behind_arguments(store, id, arguments.len()) == result,
    decreases arguments.len(),
{
    if arguments.len() > 0 {
        if let Type::Function(_, rest) = store.type_at(id) {
            lemma_function_reads(store, rest, arguments.skip(1), result);
        }
        assert(arguments =~= seq![arguments[0]] + arguments.skip(1));
    } else {
        assert(arguments =~= Seq::empty());
    }
}

/// A quantified type has its binders in order, and its body behind them.
pub proof fn lemma_forall_reads(
    store: TypeStore,
    id: TypeId,
    binders: Seq<ForallBinderId>,
    body: TypeId,
)
    requires
        store.is_forall(id, binders, body),
    ensures
        binders_along(store, id, binders.len()) == binders,
        behind_foralls(store, id, binders.len()) == body,
    decreases binders.len(),
{
    if binders.len() > 0 {
        if let Type::Forall(_, rest) = store.type_at(id) {
            lemma_forall_reads(store, rest, binders.skip(1), body);
        }
        assert(binders =~= seq![binders[0]] + binders.skip(1));
    } else {
        assert(binders =~= Seq::empty());
    }
}

/// A type that is quantified over a head has the kinds of the head first, and then its
/// parameters.
pub proof fn lemma_quantified_reads(store: TypeStore, head: TypeHead, id: TypeId, body: TypeId)
    requires
        is_quantified(store, head, id, body),
    ensures
        ({
            let kinds = head.kind_binders@.len();
            let parameters = head.type_parameters@.len();
            let inner = behind_foralls(store, id, kinds);
            &&& binders_along(store, id, kinds) == head.kind_binders@
            &&& binders_along(store, inner, parameters) == head.type_parameters@
            &&& behind_foralls(store, inner, parameters) == body
        }),
{
    let inner = choose|inner: TypeId|
        #[trigger] store.is_forall(inner, head.type_parameters@, body) && store.is_forall(
            id,
            head.kind_binders@,
            inner,
        );
    lemma_forall_reads(store, id, head.kind_binders@, inner);
    lemma_forall_reads(store, inner, head.type_parameters@, body);
}

/// The type of a constructor takes the constructor's arguments, in order, and gives the
/// type that is declared, applied to its parameters.
pub proof fn lemma_constructor_reads(
    store: TypeStore,
    head: TypeHead,
    arguments: Seq<TypeId>,
    id: TypeId,
)
    requires
        is_constructor_type(store, head, arguments, id),
    ensures
        ({
            let kinds = head.kind_binders@.len();
            let parameters = head.type_parameters@.len();
            let body = behind_foralls(store, behind_foralls(store, id, kinds), parameters);
            &&& arguments_along(store, body, arguments.len()) == arguments
            &&& behind_arguments(store, body, arguments.len()) == head.applied
        }),
{
    let body = choose|body: TypeId|
        #[trigger] store.is_function(body, arguments, head.applied) && is_quantified(
            store,
            head,
            id,
            body,
        );
    lemma_quantified_reads(store, head, id, body);
    lemma_function_reads(store, body, arguments, head.applied);
}

/// The type of a class's member outside of the class has the class as its constraint, in
/// front of the member's own type.
pub proof fn lemma_selector_reads(store: TypeStore, head: TypeHead, field_type: TypeId, id: TypeId)
    requires
        is_selector_type(store, head, field_type, id),
    ensures
        ({
            let kinds = head.kind_binders@.len();
            let parameters = head.type_parameters@.len();
            let body = behind_foralls(store, behind_foralls(store, id, kinds), parameters);
            &&& store.has_type(body)
            &&& store.type_at(body) == Type::Constrained(head.applied, field_type)
        }),
{
    let body = choose|body: TypeId|
        #[trigger] store.denotes(body, Type::Constrained(head.applied, field_type))
            && is_quantified(store, head, id, body);
    lemma_quantified_reads(store, head, id, body);
}

/// Parameters keep their names and whether they are visible, and get the kinds.
pub proof fn lemma_with_kinds(
    parameters: Seq<ForallBinder>,
    kinds: Seq<TypeId>,
    index: int,
)
    requires
        0 <= index < parameters.len(),
    ensures
        with_kinds(parameters, kinds).len() == parameters.len(),
        with_kinds(parameters, kinds)[index].kind == kinds[index],
        with_kinds(parameters, kinds)[index].name == parameters[index].name,
        with_kinds(parameters, kinds)[index].visible == parameters[index].visible,
        hidden(parameters)[index].kind == parameters[index].kind,
        hidden(parameters)[index].name == parameters[index].name,
        !hidden(parameters)[index].visible,
{
}

// Instances

/// A member is named as missing exactly where the class has it under that name and the
/// instance does not implement it.
pub proof fn lemma_missing_names(
    class_file: FileId,
    members: Seq<ClassMemberName>,
    implementations: Seq<InstanceMember>,
    name: String,
)
    ensures
        missing_names(class_file, members, implementations).contains(name) <==> exists|i: int|
            0 <= i < members.len() && (#[trigger] members[i]).name == Some(name) && forall|j: int|
                0 <= j < implementations.len() ==> (#[trigger] implementations[j]).resolution != (
                    class_file,
                    members[i].item_id,
                ),
    decreases members.len(),
{
    let missing = missing_names(class_file, members, implementations);
    if members.len() > 0 {
        let rest = members.drop_last();
        let last = members.last();
        let before = missing_names(class_file, rest, implementations);
        lemma_missing_names(class_file, rest, implementations, name);
        assert(forall|i: int| 0 <= i < rest.len() ==> rest[i] == members[i]);
        if before.contains(name) {
            let k = choose|k: int| 0 <= k < before.len() && before[k] == name;
            assert(missing[k] == name);
            let i = choose|i: int|
                0 <= i < rest.len() && (#[trigger] rest[i]).name == Some(name) && forall|j: int|
                    0 <= j < implementations.len() ==> (#[trigger] implementations[j]).resolution
                        != (class_file, rest[i].item_id);
            assert(members[i].name == Some(name));
        }
        if last.name == Some(name) && !is_implemented(
            implementations,
            (class_file, last.item_id),
        ) {
            assert(missing.last() == name);
            assert(members[members.len() - 1].name == Some(name));
        }
        if missing.contains(name) && !before.contains(name) {
            let k = choose|k: int| 0 <= k < missing.len() && missing[k] == name;
            assert(k == missing.len() - 1 && missing.len() == before.len() + 1) by {
                if k < before.len() {
                    assert(before[k] == name);
                }
            }
            assert(members[members.len() - 1].name == Some(name));
        }
        if exists|i: int|
            0 <= i < members.len() && (#[trigger] members[i]).name == Some(name) && forall|j: int|
                0 <= j < implementations.len() ==> (#[trigger] implementations[j]).resolution != (
                    class_file,
                    members[i].item_id,
                ) {
            let i = choose|i: int|
                0 <= i < members.len() && (#[trigger] members[i]).name == Some(name) && forall|
                    j: int,
                |
                    0 <= j < implementations.len() ==> (#[trigger] implementations[j]).resolution
                        != (class_file, members[i].item_id);
            if i < rest.len() {
                assert(rest[i].name == Some(name));
            } else {
                assert(!is_implemented(implementations, (class_file, last.item_id)));
            }
        }
    }
}

/// The variables of a class stand for the arguments at their places: the kinds first,
/// then the types.
pub proof fn lemma_class_bindings(
    class: ClassInfo,
    arguments: Seq<ApplicationArgument>,
    index: int,
)
    requires
        arguments.len() == class.kind_binders@.len() + class.type_parameters@.len(),
        0 <= index < arguments.len(),
    ensures
        class_bindings(class, arguments).len() == arguments.len(),
        class_bindings(class, arguments)[index].1 == (match arguments[index] {
            ApplicationArgument::Kind(kind) => kind,
            ApplicationArgument::Type(type_id) => type_id,
        }),
        class_bindings(class, arguments)[index].0 == if index < class.kind_binders@.len() {
            class.kind_binders@[index]
        } else {
            class.type_parameters@[index - class.kind_binders@.len()]
        },
{
}

/// The type of a member is that of the first entry with its identity.
pub proof fn lemma_member_type(members: Seq<ClassMemberType>, item_id: TermItemId)
    ensures
        match member_type(members, item_id) {
            Some(found) => exists|i: int|
                0 <= i < members.len() && (#[trigger] members[i]).item_id == item_id
                    && members[i].field_type == found && forall|j: int|
                    0 <= j < i ==> (#[trigger] members[j]).item_id != item_id,
            None => forall|i: int|
                0 <= i < members.len() ==> (#[trigger] members[i]).item_id != item_id,
        },
    decreases members.len(),
{
    if members.len() > 0 {
        let rest = members.skip(1);
        lemma_member_type(rest, item_id);
        assert(forall|i: int| 0 <= i < rest.len() ==> rest[i] == members[i + 1]);
        if members[0].item_id == item_id {
            assert(members[0].item_id == item_id);
        } else {
            match member_type(rest, item_id) {
                Some(found) => {
                    let i = choose|i: int|
                        0 <= i < rest.len() && (#[trigger] rest[i]).item_id == item_id
                            && rest[i].field_type == found && forall|j: int|
                            0 <= j < i ==> (#[trigger] rest[j]).item_id != item_id;
                    assert(members[i + 1].item_id == item_id);
                    assert forall|j: int| 0 <= j < i + 1 implies (#[trigger] members[j]).item_id
                        != item_id by {
                        if j > 0 {
                            assert(rest[j - 1].item_id != item_id);
                        }
                    }
                },
                None => {
                    assert forall|i: int| 0 <= i < members.len() implies (
                    #[trigger] members[i]).item_id != item_id by {
                        if i > 0 {
                            assert(rest[i - 1].item_id != item_id);
                        }
                    }
                },
            }
        }
    }
}

/// The superclasses of a class keep their constraints and their order, and are known by
/// the class and their own sources.
pub proof fn lemma_class_superclasses(
    file: FileId,
    item_id: TypeItemId,
    superclasses: Seq<super::state::CheckedSuperclass>,
    index: int,
)
    requires
        0 <= index < superclasses.len(),
    ensures
        ({
            let all = class_superclasses(file, item_id, superclasses);
            &&& all.len() == superclasses.len()
            &&& all[index].constraint == superclasses[index].constraint
            &&& all[index].id.file_id == file
            &&& all[index].id.type_id == item_id
            &&& all[index].id.source_id == superclasses[index].source_id
        }),
{
}

// Values

/// A constraint that is not satisfied is reported as one that no instance was found for.
pub proof fn lemma_unsatisfied_reported(
    residuals: Seq<Residual>,
    errors: Map<u64, Vec<ErrorKind>>,
    index: int,
)
    requires
        0 <= index < residuals.len(),
    ensures
        unsatisfied_kinds(residuals, errors).contains(
            ErrorKind::NoInstanceFound {
                given: residuals[index].given,
                constraint: residuals[index].constraint,
            },
        ),
    decreases residuals.len(),
{
    let rest = residuals.drop_last();
    let all = unsatisfied_kinds(residuals, errors);
    let error = ErrorKind::NoInstanceFound {
        given: residuals[index].given,
        constraint: residuals[index].constraint,
    };
    if index == residuals.len() - 1 {
        assert(all.last() == error);
    } else {
        lemma_unsatisfied_reported(rest, errors, index);
        let before = unsatisfied_kinds(rest, errors);
        let k = choose|k: int| 0 <= k < before.len() && before[k] == error;
        assert(all[k] == error);
    }
}

/// What came up for a constraint on the way is reported, where the constraint is not
/// satisfied.
pub proof fn lemma_attached_reported(
    residuals: Seq<Residual>,
    errors: Map<u64, Vec<ErrorKind>>,
    index: int,
    attached: int,
)
    requires
        0 <= index < residuals.len(),
        forall|i: int| 0 <= i < index ==> (#[trigger] residuals[i]).wanted
            != residuals[index].wanted,
        0 <= attached < attached_kinds(errors, residuals[index].wanted).len(),
    ensures
        unsatisfied_kinds(residuals, errors).contains(
            attached_kinds(errors, residuals[index].wanted)[attached],
        ),
    decreases residuals.len(),
{
    let rest = residuals.drop_last();
    let all = unsatisfied_kinds(residuals, errors);
    let before = unsatisfied_kinds(rest, errors);
    let error = attached_kinds(errors, residuals[index].wanted)[attached];
    if index == residuals.len() - 1 {
        let wanted = residuals.last().wanted;
        lemma_attached_once(errors, rest, wanted);
        assert(!(exists|i: int| 0 <= i < rest.len() && (#[trigger] rest[i]).wanted == wanted)) by {
            if exists|i: int| 0 <= i < rest.len() && (#[trigger] rest[i]).wanted == wanted {
                let i = choose|i: int|
                    0 <= i < rest.len() && (#[trigger] rest[i]).wanted == wanted;
                assert(residuals[i].wanted == wanted);
            }
        }
        assert(all[before.len() + attached] == error);
    } else {
        assert forall|i: int| 0 <= i < index implies (#[trigger] rest[i]).wanted
            != rest[index].wanted by {
            assert(residuals[i].wanted != residuals[index].wanted);
        }
        lemma_attached_reported(rest, errors, index, attached);
        let k = choose|k: int| 0 <= k < before.len() && before[k] == error;
        assert(all[k] == error);
    }
}

/// A recursive value that was inferred to have constraints is reported; so is every
/// ambiguous constraint of a value, and every constraint that is not satisfied.
pub proof fn lemma_value_reported(
    value: GeneralisedValue,
    recursive: bool,
    errors: Map<u64, Vec<ErrorKind>>,
)
    ensures
        ({
            let kinds = value_kinds(value, recursive, errors);
            &&& recursive && value.inferred_constraints ==> kinds.contains(
                ErrorKind::CannotGeneraliseRecursiveFunction { type_id: value.type_id },
            )
            &&& forall|i: int|
                0 <= i < value.ambiguous@.len() ==> kinds.contains(
                    ErrorKind::AmbiguousConstraint { constraint: #[trigger] value.ambiguous@[i] },
                )
            &&& forall|i: int|
                0 <= i < value.unsatisfied@.len() ==> kinds.contains(
                    ErrorKind::NoInstanceFound {
                        given: (#[trigger] value.unsatisfied@[i]).given,
                        constraint: value.unsatisfied@[i].constraint,
                    },
                )
        }),
{
    let kinds = value_kinds(value, recursive, errors);
    let first = if recursive && value.inferred_constraints {
        1int
    } else {
        0int
    };
    if recursive && value.inferred_constraints {
        assert(kinds[0] == (ErrorKind::CannotGeneraliseRecursiveFunction {
            type_id: value.type_id,
        }));
    }
    assert forall|i: int| 0 <= i < value.ambiguous@.len() implies kinds.contains(
        ErrorKind::AmbiguousConstraint { constraint: #[trigger] value.ambiguous@[i] },
    ) by {
        assert(kinds[first + i] == (ErrorKind::AmbiguousConstraint {
            constraint: value.ambiguous@[i],
        }));
    }
    assert forall|i: int| 0 <= i < value.unsatisfied@.len() implies kinds.contains(
        ErrorKind::NoInstanceFound {
            given: (#[trigger] value.unsatisfied@[i]).given,
            constraint: value.unsatisfied@[i].constraint,
        },
    ) by {
        lemma_unsatisfied_reported(value.unsatisfied@, errors, i);
        let inner = unsatisfied_kinds(value.unsatisfied@, errors);
        let error = ErrorKind::NoInstanceFound {
            given: value.unsatisfied@[i].given,
            constraint: value.unsatisfied@[i].constraint,
        };
        let k = choose|k: int| 0 <= k < inner.len() && inner[k] == error;
        assert(kinds[first + value.ambiguous@.len() + k] == error);
    }
}

/// A declaration abstracts over its type parameters first, and then over its constraints,
/// each with its own evidence.
pub proof fn lemma_abstractions(
    parameters: Seq<GeneralisedParameter>,
    constraints: Seq<InferredConstraint>,
)
    ensures
        ({
            let all = all_abstractions(parameters, evidence_abstractions(constraints));
            &&& all.len() == parameters.len() + constraints.len()
            &&& forall|i: int|
                0 <= i < parameters.len() ==> #[trigger] all[i] == (DeclarationAbstraction::Type {
                    binder: parameters[i].binder,
                    rigid: parameters[i].rigid,
                })
            &&& forall|i: int|
                0 <= i < constraints.len() ==> #[trigger] all[parameters.len() + i] == (
                DeclarationAbstraction::Evidence {
                    constraint: constraints[i].constraint,
                    binder: constraints[i].binder,
                })
        }),
{
}

} // verus!
