//! Data types, synonyms and classes, step by step.
//!
//! Progress tells what is asked next of the rest of the checker, and takes the
//! answer.

use super::error::ErrorCrumb;
use super::lowering::SourceTypeId;
use super::state::{unification_added, CheckState, CheckedSuperclass, FunctionalDependency};
use super::terms::form_do::is_variable;
use super::tree::ClassMember;
use super::type_items::{
    binder_kinds, equation_request, inferred_kind, only_kinds, record_inferred_kind,
    record_signature_kind, synonym_expansion, synonym_result, EquationRequest, ResolvedClass,
    ResolvedData, TypeHead,
};
use super::types::{
    extends, lemma_denotes_extends, lemma_extends_transitive, ForallBinder, Prim, Role, Type,
    TypeId, TypeStore, Types,
};
use crate::indexing::items::{TermItemId, TypeItemId};
use vstd::prelude::*;

verus! {

// Equations

/// What a type is declared as, but for its parameters.
#[allow(inconsistent_fields)]
#[derive(Debug)]
pub enum TypeEquation {
    Data {
        newtype: bool,
        constructors: Vec<(TermItemId, Vec<SourceTypeId>)>,
        roles: Vec<Role>,
    },
    Synonym { synonym: Option<SourceTypeId> },
    Class {
        constraints: Vec<SourceTypeId>,
        functional_dependencies: Vec<FunctionalDependency>,
        members: Vec<(TermItemId, Option<SourceTypeId>)>,
    },
}

/// A type of the source that has to be checked against a kind; errors are found at
/// the place.
#[derive(Clone, Copy, Debug, PartialEq, Eq, Structural)]
pub struct KindCheck {
    pub source_id: SourceTypeId,
    pub expected: TypeId,
    pub crumb: Option<ErrorCrumb>,
}

/// A data type or a newtype that has been checked.
#[derive(Debug)]
pub struct PendingData {
    pub item: TypeItemId,
    pub newtype: bool,
    pub parameters: Vec<ForallBinder>,
    pub constructors: Vec<(TermItemId, Vec<TypeId>)>,
    pub roles: Vec<Role>,
}

/// A synonym that has been checked.
#[derive(Debug)]
pub struct PendingSynonym {
    pub item: TypeItemId,
    pub parameters: Vec<ForallBinder>,
    pub expansion: TypeId,
}

/// A class that has been checked.
#[derive(Debug)]
pub struct PendingClass {
    pub item: TypeItemId,
    pub parameters: Vec<ForallBinder>,
    pub superclasses: Vec<CheckedSuperclass>,
    pub functional_dependencies: Vec<FunctionalDependency>,
    pub members: Vec<(TermItemId, TypeId)>,
}

/// A foreign type with the roles that are declared for it.
#[derive(Debug)]
pub struct PendingForeign {
    pub item: TypeItemId,
    pub roles: Vec<Role>,
}

/// The types of a group that have been checked.
#[derive(Debug)]
pub struct TypeSccState {
    pub data: Vec<PendingData>,
    pub synonyms: Vec<PendingSynonym>,
    pub classes: Vec<PendingClass>,
    pub foreign: Vec<PendingForeign>,
}

impl TypeSccState {
    pub fn new() -> (scc: TypeSccState)
        ensures
            scc.data@.len() == 0,
            scc.synonyms@.len() == 0,
            scc.classes@.len() == 0,
            scc.foreign@.len() == 0,
    {
        TypeSccState {
            data: Vec::new(),
            synonyms: Vec::new(),
            classes: Vec::new(),
            foreign: Vec::new(),
        }
    }
}

/// The arguments of all constructors, in order.
pub open spec fn all_arguments<T>(constructors: Seq<(TermItemId, Vec<T>)>) -> Seq<T>
    decreases constructors.len(),
{
    if constructors.len() == 0 {
        Seq::empty()
    } else {
        all_arguments(constructors.drop_last()) + constructors.last().1@
    }
}

/// The constructors have so many arguments each.
pub open spec fn same_shape<S, T>(
    left: Seq<(TermItemId, Vec<S>)>,
    right: Seq<(TermItemId, Vec<T>)>,
) -> bool {
    &&& left.len() == right.len()
    &&& forall|i: int|
        #![trigger left[i]]
        #![trigger right[i]]
        0 <= i < left.len() ==> left[i].0 == right[i].0 && left[i].1@.len() == right[i].1@.len()
}

proof fn lemma_all_arguments_prefix<T>(constructors: Seq<(TermItemId, Vec<T>)>, count: int)
    requires
        0 <= count <= constructors.len(),
    ensures
        all_arguments(constructors.take(count)).len() <= all_arguments(constructors).len(),
    decreases constructors.len() - count,
{
    if count < constructors.len() {
        lemma_all_arguments_prefix(constructors, count + 1);
        assert(constructors.take(count + 1).drop_last() =~= constructors.take(count));
    } else {
        assert(constructors.take(count) =~= constructors);
    }
}

/// The arguments of all constructors, in order.
pub fn constructor_arguments<T: Copy>(constructors: &Vec<(TermItemId, Vec<T>)>) -> (arguments: Vec<
    T,
>)
    ensures
        arguments@ == all_arguments(constructors@),
{
    let mut arguments: Vec<T> = Vec::new();
    let mut outer: usize = 0;
    assert(constructors@.take(0) =~= Seq::empty());
    while outer < constructors.len()
        invariant
            outer <= constructors.len(),
            arguments@ == all_arguments(constructors@.take(outer as int)),
        decreases constructors.len() - outer,
    {
        let own = &constructors[outer].1;
        let ghost before = arguments@;
        let mut inner: usize = 0;
        assert(arguments@ =~= before + own@.take(0));
        while inner < own.len()
            invariant
                inner <= own.len(),
                arguments@ == before + own@.take(inner as int),
            decreases own.len() - inner,
        {
            arguments.push(own[inner]);
            assert(own@.take(inner + 1) =~= own@.take(inner as int).push(own@[inner as int]));
            assert(arguments@ =~= before + own@.take(inner + 1));
            inner += 1;
        }
        assert(own@.take(inner as int) =~= own@);
        assert(constructors@.take(outer + 1).drop_last() =~= constructors@.take(outer as int));
        outer += 1;
    }
    assert(constructors@.take(outer as int) =~= constructors@);
    arguments
}

/// The constructors with other arguments, as many as they had.
pub fn with_arguments<S>(constructors: &Vec<(TermItemId, Vec<S>)>, arguments: &Vec<TypeId>) -> (
replaced: Vec<(TermItemId, Vec<TypeId>)>)
    requires
        arguments@.len() == all_arguments(constructors@).len(),
    ensures
        same_shape(constructors@, replaced@),
        all_arguments(replaced@) == arguments@,
{
    let mut replaced: Vec<(TermItemId, Vec<TypeId>)> = Vec::new();
    let mut position: usize = 0;
    let mut outer: usize = 0;
    assert(constructors@.take(0) =~= Seq::empty());
    assert(arguments@.take(0) =~= Seq::empty());
    assert(all_arguments(replaced@) =~= arguments@.take(0));
    while outer < constructors.len()
        invariant
            outer <= constructors.len(),
            same_shape(constructors@.take(outer as int), replaced@),
            position == all_arguments(constructors@.take(outer as int)).len(),
            position <= arguments@.len(),
            arguments@.len() == all_arguments(constructors@).len(),
            all_arguments(replaced@) == arguments@.take(position as int),
        decreases constructors.len() - outer,
    {
        let count: usize = constructors[outer].1.len();
        let ghost start = position;
        let ghost before = replaced@;
        proof {
            lemma_all_arguments_prefix(constructors@, outer + 1);
            assert(constructors@.take(outer + 1).drop_last() =~= constructors@.take(outer as int));
        }
        let mut own: Vec<TypeId> = Vec::new();
        let mut inner: usize = 0;
        assert(own@ =~= arguments@.subrange(start as int, position as int));
        while inner < count
            invariant
                inner <= count,
                position == start + inner,
                start + count <= arguments@.len(),
                own@ == arguments@.subrange(start as int, position as int),
            decreases count - inner,
        {
            assert(position < arguments.len());
            own.push(arguments[position]);
            assert(own@ =~= arguments@.subrange(start as int, position + 1));
            position += 1;
            inner += 1;
        }
        let ghost added = own;
        replaced.push((constructors[outer].0, own));
        proof {
            assert(replaced@.drop_last() =~= before);
            assert(arguments@.take(start as int) + added@ =~= arguments@.take(position as int));
            let longer = constructors@.take(outer + 1);
            assert forall|i: int| 0 <= i < longer.len() implies longer[i].0 == (
            #[trigger] replaced@[i]).0 && longer[i].1@.len() == replaced@[i].1@.len() by {
                if i < outer {
                    assert(replaced@[i] == before[i]);
                    assert(constructors@.take(outer as int)[i] == longer[i]);
                }
            }
        }
        outer += 1;
    }
    assert(constructors@.take(outer as int) =~= constructors@);
    assert(arguments@.take(position as int) =~= arguments@);
    replaced
}

/// The members that have a signature, in order.
pub open spec fn signed_members(members: Seq<(TermItemId, Option<SourceTypeId>)>) -> Seq<
    (TermItemId, SourceTypeId),
>
    decreases members.len(),
{
    if members.len() == 0 {
        Seq::empty()
    } else {
        let before = signed_members(members.drop_last());
        match members.last() {
            (item, Some(signature)) => before.push((item, signature)),
            (_, None) => before,
        }
    }
}

fn members_with_signatures(members: &Vec<(TermItemId, Option<SourceTypeId>)>) -> (signed: Vec<
    (TermItemId, SourceTypeId),
>)
    ensures
        signed@ == signed_members(members@),
{
    let mut signed: Vec<(TermItemId, SourceTypeId)> = Vec::new();
    let mut index: usize = 0;
    assert(members@.take(0) =~= Seq::empty());
    while index < members.len()
        invariant
            index <= members.len(),
            signed@ == signed_members(members@.take(index as int)),
        decreases members.len() - index,
    {
        assert(members@.take(index + 1).drop_last() =~= members@.take(index as int));
        let (item, signature) = members[index];
        if let Some(signature) = signature {
            signed.push((item, signature));
        }
        index += 1;
    }
    assert(members@.take(index as int) =~= members@);
    signed
}

/// What an argument of a constructor is checked against.
pub open spec fn argument_check(source_id: SourceTypeId, prim: Prim) -> KindCheck {
    KindCheck {
        source_id,
        expected: prim.t,
        crumb: Some(ErrorCrumb::ConstructorArgument(source_id)),
    }
}

/// What is checked of an equation, in order: the arguments of all constructors, what a
/// synonym stands for, or the superclasses of a class and then its members.
pub open spec fn kind_checks(equation: TypeEquation, prim: Prim, result: TypeId) -> Seq<KindCheck> {
    match equation {
        TypeEquation::Data { constructors, .. } => all_arguments(constructors@).map_values(
            |argument: SourceTypeId| argument_check(argument, prim),
        ),
        TypeEquation::Synonym { synonym } => match synonym {
            Some(source_id) => seq![KindCheck { source_id, expected: result, crumb: None }],
            None => Seq::empty(),
        },
        TypeEquation::Class { constraints, members, .. } => constraints@.map_values(
            |source_id: SourceTypeId|
                KindCheck { source_id, expected: prim.constraint, crumb: None },
        ) + signed_members(members@).map_values(
            |member: (TermItemId, SourceTypeId)|
                KindCheck { source_id: member.1, expected: prim.t, crumb: None },
        ),
    }
}

/// How much is checked of an equation.
pub open spec fn check_count(equation: TypeEquation) -> nat {
    match equation {
        TypeEquation::Data { constructors, .. } => all_arguments(constructors@).len(),
        TypeEquation::Synonym { synonym } => if synonym is Some {
            1
        } else {
            0
        },
        TypeEquation::Class { constraints, members, .. } => constraints@.len() + signed_members(
            members@,
        ).len(),
    }
}

/// The kind of what is declared, where the sort of the declaration tells it.
pub fn declared_result(equation: &TypeEquation, prim: &Prim) -> (result: Option<TypeId>)
    ensures
        result == (match *equation {
            TypeEquation::Data { .. } => Some(prim.t),
            TypeEquation::Synonym { .. } => None,
            TypeEquation::Class { .. } => Some(prim.constraint),
        }),
{
    match equation {
        TypeEquation::Data { .. } => Some(prim.t),
        TypeEquation::Synonym { .. } => None,
        TypeEquation::Class { .. } => Some(prim.constraint),
    }
}

/// What is checked of an equation, in order.
pub fn equation_checks(equation: &TypeEquation, prim: &Prim, result: TypeId) -> (checks: Vec<
    KindCheck,
>)
    ensures
        checks@ == kind_checks(*equation, *prim, result),
        checks@.len() == check_count(*equation),
{
    let mut checks: Vec<KindCheck> = Vec::new();
    match equation {
        TypeEquation::Data { constructors, .. } => {
            let arguments = constructor_arguments(constructors);
            let ghost all = kind_checks(*equation, *prim, result);
            let mut index: usize = 0;
            while index < arguments.len()
                invariant
                    index <= arguments.len(),
                    all.len() == arguments@.len(),
                    forall|i: int|
                        0 <= i < all.len() ==> #[trigger] all[i] == argument_check(
                            arguments@[i],
                            *prim,
                        ),
                    checks@ =~= all.take(index as int),
                decreases arguments.len() - index,
            {
                let source_id = arguments[index];
                checks.push(
                    KindCheck {
                        source_id,
                        expected: prim.t,
                        crumb: Some(ErrorCrumb::ConstructorArgument(source_id)),
                    },
                );
                assert(checks@ =~= all.take(index + 1));
                index += 1;
            }
            assert(all.take(index as int) =~= all);
        },
        TypeEquation::Synonym { synonym } => {
            if let Some(source_id) = synonym {
                checks.push(KindCheck { source_id: *source_id, expected: result, crumb: None });
            }
            assert(checks@ =~= kind_checks(*equation, *prim, result));
        },
        TypeEquation::Class { constraints, members, .. } => {
            let ghost all = kind_checks(*equation, *prim, result);
            let mut index: usize = 0;
            while index < constraints.len()
                invariant
                    index <= constraints.len() <= all.len(),
                    forall|i: int|
                        0 <= i < constraints@.len() ==> #[trigger] all[i] == (KindCheck {
                            source_id: constraints@[i],
                            expected: prim.constraint,
                            crumb: None,
                        }),
                    checks@ =~= all.take(index as int),
                decreases constraints.len() - index,
            {
                checks.push(
                    KindCheck {
                        source_id: constraints[index],
                        expected: prim.constraint,
                        crumb: None,
                    },
                );
                assert(checks@ =~= all.take(index + 1));
                index += 1;
            }
            let signed = members_with_signatures(members);
            index = 0;
            while index < signed.len()
                invariant
                    index <= signed.len(),
                    all.len() == constraints@.len() + signed@.len(),
                    forall|i: int|
                        0 <= i < signed@.len() ==> #[trigger] all[constraints@.len() + i] == (
                        KindCheck { source_id: signed@[i].1, expected: prim.t, crumb: None }),
                    checks@ =~= all.take(constraints@.len() + index),
                decreases signed.len() - index,
            {
                let (_, source_id) = signed[index];
                assert(all[constraints@.len() + index] == (KindCheck {
                    source_id: signed@[index as int].1,
                    expected: prim.t,
                    crumb: None,
                }));
                checks.push(KindCheck { source_id, expected: prim.t, crumb: None });
                assert(checks@ =~= all.take(constraints@.len() + index + 1));
                index += 1;
            }
            assert(all.take(constraints@.len() + index) =~= all);
        },
    }
    checks
}

/// The equation has been added to the group, with what its checks gave.
pub open spec fn equation_added(
    before: TypeSccState,
    after: TypeSccState,
    store: TypeStore,
    item: TypeItemId,
    parameters: Vec<ForallBinder>,
    equation: TypeEquation,
    checked: Seq<TypeId>,
) -> bool {
    match equation {
        TypeEquation::Data { newtype, constructors, roles } => {
            &&& after == (TypeSccState { data: after.data, ..before })
            &&& after.data@.len() == before.data@.len() + 1
            &&& after.data@.drop_last() == before.data@
            &&& after.data@.last() == (PendingData {
                item,
                newtype,
                parameters,
                constructors: after.data@.last().constructors,
                roles,
            })
            &&& same_shape(constructors@, after.data@.last().constructors@)
            &&& all_arguments(after.data@.last().constructors@) == checked
        },
        TypeEquation::Synonym { synonym } => {
            &&& after == (TypeSccState { synonyms: after.synonyms, ..before })
            &&& after.synonyms@.len() == before.synonyms@.len() + 1
            &&& after.synonyms@.drop_last() == before.synonyms@
            &&& after.synonyms@.last().item == item
            &&& after.synonyms@.last().parameters == parameters
            &&& if synonym is Some {
                after.synonyms@.last().expansion == checked[0]
            } else {
                store.is_unknown(after.synonyms@.last().expansion, "invalid synonym type"@)
            }
        },
        TypeEquation::Class { constraints, functional_dependencies, members } => {
            let signed = signed_members(members@);
            &&& after == (TypeSccState { classes: after.classes, ..before })
            &&& after.classes@.len() == before.classes@.len() + 1
            &&& after.classes@.drop_last() == before.classes@
            &&& after.classes@.last() == (PendingClass {
                item,
                parameters,
                superclasses: after.classes@.last().superclasses,
                functional_dependencies,
                members: after.classes@.last().members,
            })
            &&& after.classes@.last().superclasses@ == Seq::new(
                constraints@.len(),
                |i: int| CheckedSuperclass { source_id: constraints@[i], constraint: checked[i] },
            )
            &&& after.classes@.last().members@ == Seq::new(
                signed.len(),
                |i: int| (signed[i].0, checked[constraints@.len() + i]),
            )
        },
    }
}

/// Adds an equation to its group, with what its checks gave, in order.
pub fn record_equation(
    types: &mut Types,
    scc: &mut TypeSccState,
    item: TypeItemId,
    parameters: Vec<ForallBinder>,
    equation: TypeEquation,
    checked: &Vec<TypeId>,
)
    requires
        old(types)@.wf(),
        checked@.len() == check_count(equation),
    ensures
        final(types)@.wf(),
        extends(old(types)@, final(types)@),
        final(types)@ == (if equation matches TypeEquation::Synonym { synonym: None } {
            old(types)@.with_unknown("invalid synonym type"@).0
        } else {
            old(types)@
        }),
        equation_added(
            *old(scc),
            *final(scc),
            final(types)@,
            item,
            parameters,
            equation,
            checked@,
        ),
{
    let ghost before = *scc;
    match equation {
        TypeEquation::Data { newtype, constructors, roles } => {
            let checked = with_arguments(&constructors, checked);
            scc.data.push(
                PendingData { item, newtype, parameters, constructors: checked, roles },
            );
            assert(scc.data@.drop_last() =~= before.data@);
        },
        TypeEquation::Synonym { synonym } => {
            let expansion = match synonym {
                Some(_) => synonym_expansion(types, Some(checked[0])),
                None => synonym_expansion(types, None),
            };
            scc.synonyms.push(PendingSynonym { item, parameters, expansion });
            assert(scc.synonyms@.drop_last() =~= before.synonyms@);
        },
        TypeEquation::Class { constraints, functional_dependencies, members } => {
            let signed = members_with_signatures(&members);
            let ghost first = Seq::new(
                constraints@.len(),
                |i: int| CheckedSuperclass { source_id: constraints@[i], constraint: checked@[i] },
            );
            let ghost second = Seq::new(
                signed@.len(),
                |i: int| (signed@[i].0, checked@[constraints@.len() + i]),
            );
            let mut superclasses: Vec<CheckedSuperclass> = Vec::new();
            let mut index: usize = 0;
            while index < constraints.len()
                invariant
                    index <= constraints.len() <= checked@.len(),
                    first == Seq::new(
                        constraints@.len(),
                        |i: int|
                            CheckedSuperclass {
                                source_id: constraints@[i],
                                constraint: checked@[i],
                            },
                    ),
                    superclasses@ =~= first.take(index as int),
                decreases constraints.len() - index,
            {
                let source_id = constraints[index];
                superclasses.push(CheckedSuperclass { source_id, constraint: checked[index] });
                assert(superclasses@ =~= first.take(index + 1));
                index += 1;
            }
            assert(first.take(index as int) =~= first);
            let mut typed: Vec<(TermItemId, TypeId)> = Vec::new();
            let mut index: usize = 0;
            while index < signed.len()
                invariant
                    index <= signed.len(),
                    constraints@.len() + signed@.len() == checked@.len(),
                    second == Seq::new(
                        signed@.len(),
                        |i: int| (signed@[i].0, checked@[constraints@.len() + i]),
                    ),
                    typed@ =~= second.take(index as int),
                decreases signed.len() - index,
            {
                let (member, _) = signed[index];
                assert(constraints@.len() + index < checked.len());
                typed.push((member, checked[constraints.len() + index]));
                assert(typed@ =~= second.take(index + 1));
                index += 1;
            }
            assert(second.take(index as int) =~= second);
            scc.classes.push(
                PendingClass {
                    item,
                    parameters,
                    superclasses,
                    functional_dependencies,
                    members: typed,
                },
            );
            assert(scc.classes@.drop_last() =~= before.classes@);
        },
    }
}

// Parameters

/// How far the parameters of a declaration have come.
#[allow(inconsistent_fields)]
#[derive(Debug)]
pub enum ParametersProgress {
    /// The signature has to be taken apart.
    Expect { signature: SourceTypeId, signature_kind: TypeId },
    /// The parameters have to be checked, against the kinds that are given.
    Variables { given: Vec<TypeId>, result: Option<TypeId> },
    /// The kind that was inferred has to be a subtype of the one that is known.
    Relate { binders: Vec<ForallBinder>, result: TypeId, kind: TypeId, expected: TypeId },
    /// The parameters, and the kind of what is declared.
    Done { binders: Vec<ForallBinder>, result: TypeId },
}

/// What the rest of the checker answers.
#[derive(Debug)]
pub enum ParametersAnswer {
    Signature { arguments: Vec<TypeId>, result: TypeId },
    Binders(Vec<ForallBinder>),
    Related,
}

/// The kind of a declaration without a signature has been inferred: it is that of the
/// item, or has to be a subtype of the one that the item has already.
pub open spec fn kind_inferred(
    before: CheckState,
    after: CheckState,
    store: TypeStore,
    item: TypeItemId,
    binders: Vec<ForallBinder>,
    result: TypeId,
    progress: ParametersProgress,
) -> bool {
    let kinds = before.checked.type_item_kinds@;
    let key = item.raw as u64;
    if kinds.contains_key(key) {
        &&& after == before
        &&& progress matches ParametersProgress::Relate {
            binders: kept,
            result: same,
            kind,
            expected,
        }
        &&& kept == binders
        &&& same == result
        &&& expected == kinds[key]
        &&& store.is_function(kind, binder_kinds(binders@), result)
    } else {
        &&& progress == (ParametersProgress::Done { binders, result })
        &&& only_kinds(before, after)
        &&& exists|kind: TypeId| #[trigger]
            store.is_function(kind, binder_kinds(binders@), result)
                && after.checked.type_item_kinds@ == kinds.insert(key, kind)
    }
}

/// The types that an inferred kind adds.
pub open spec fn inferred_store(
    store: TypeStore,
    declared: Option<TypeId>,
    binders: Seq<ForallBinder>,
    variables: nat,
) -> TypeStore {
    match declared {
        Some(result) => store.with_functions(binder_kinds(binders), result).0,
        None => {
            let held = store.with_variable(variables);
            let result = held.identity(Type::Unification(variables as u32));
            held.with_functions(binder_kinds(binders), result).0
        },
    }
}

impl ParametersProgress {
    /// A signature whose kind is known is taken apart first.
    pub fn begin(state: &CheckState, item: TypeItemId, signature: Option<SourceTypeId>) -> (progress:
        ParametersProgress)
        ensures
            ({
                let kinds = state.checked.type_item_kinds@;
                let key = item.raw as u64;
                if signature is Some && kinds.contains_key(key) {
                    progress == (ParametersProgress::Expect {
                        signature: signature->0,
                        signature_kind: kinds[key],
                    })
                } else {
                    progress matches ParametersProgress::Variables { given, result }
                        && given@.len() == 0 && result is None
                }
            }),
    {
        match equation_request(state, item, signature) {
            EquationRequest::Check { signature, signature_kind } => ParametersProgress::Expect {
                signature,
                signature_kind,
            },
            EquationRequest::Infer => ParametersProgress::Variables {
                given: Vec::new(),
                result: None,
            },
        }
    }

    /// The answer is of the kind that is asked for.
    pub open spec fn is_answered(self, answer: ParametersAnswer) -> bool {
        match self {
            ParametersProgress::Expect { .. } => answer is Signature,
            ParametersProgress::Variables { .. } => answer is Binders,
            ParametersProgress::Relate { .. } => answer is Related,
            ParametersProgress::Done { .. } => false,
        }
    }

    /// How many answers are still to come at most.
    pub open spec fn remaining(self) -> nat {
        match self {
            ParametersProgress::Expect { .. } => 3,
            ParametersProgress::Variables { .. } => 2,
            ParametersProgress::Relate { .. } => 1,
            ParametersProgress::Done { .. } => 0,
        }
    }

    /// Takes an answer. Without a signature, the kind of what is declared is the one
    /// that the sort of the declaration tells, or one that is still to be found.
    pub fn advance(
        self,
        state: &mut CheckState,
        types: &mut Types,
        prim: &Prim,
        item: TypeItemId,
        declared: Option<TypeId>,
        answer: ParametersAnswer,
    ) -> (after: ParametersProgress)
        requires
            self.is_answered(answer),
            old(state).unifications.wf(),
            !old(state).unifications.is_frozen(),
            old(state).unifications@.len() < u32::MAX,
            old(types)@.wf(),
        ensures
            final(types)@.wf(),
            extends(old(types)@, final(types)@),
            final(types)@ == (match (self, answer) {
                (
                    ParametersProgress::Variables { result: None, .. },
                    ParametersAnswer::Binders(binders),
                ) => inferred_store(
                    old(types)@,
                    declared,
                    binders@,
                    old(state).unifications@.len(),
                ),
                _ => old(types)@,
            }),
            after.remaining() < self.remaining(),
            !(self is Variables) ==> *final(state) == *old(state),
            match (self, answer) {
                (
                    ParametersProgress::Expect { .. },
                    ParametersAnswer::Signature { arguments, result },
                ) => after == (ParametersProgress::Variables {
                    given: arguments,
                    result: Some(result),
                }),
                (
                    ParametersProgress::Variables { result: Some(result), .. },
                    ParametersAnswer::Binders(binders),
                ) => after == (ParametersProgress::Done { binders, result }) && *final(state)
                    == *old(state),
                (
                    ParametersProgress::Variables { result: None, .. },
                    ParametersAnswer::Binders(binders),
                ) => match declared {
                    Some(result) => kind_inferred(
                        *old(state),
                        *final(state),
                        final(types)@,
                        item,
                        binders,
                        result,
                        after,
                    ),
                    None => exists|middle: CheckState, result: TypeId| #[trigger]
                        unification_added(*old(state), middle, prim.t) && is_variable(
                            final(types)@,
                            result,
                            old(state).unifications@.len(),
                        ) && #[trigger] kind_inferred(
                            middle,
                            *final(state),
                            final(types)@,
                            item,
                            binders,
                            result,
                            after,
                        ),
                },
                (ParametersProgress::Relate { binders, result, .. }, _) => after == (
                ParametersProgress::Done { binders, result }),
                _ => false,
            },
    {
        match (self, answer) {
            (
                ParametersProgress::Expect { .. },
                ParametersAnswer::Signature { arguments, result },
            ) => ParametersProgress::Variables { given: arguments, result: Some(result) },
            (
                ParametersProgress::Variables { result: Some(result), .. },
                ParametersAnswer::Binders(binders),
            ) => ParametersProgress::Done { binders, result },
            (
                ParametersProgress::Variables { result: None, .. },
                ParametersAnswer::Binders(binders),
            ) => {
                match declared {
                    Some(result) => infer_declared_kind(state, types, item, binders, result),
                    None => {
                        let result = synonym_result(state, types, prim);
                        let ghost middle = *state;
                        let ghost store = types@;
                        let after = infer_declared_kind(state, types, item, binders, result);
                        proof {
                            assert(unification_added(*old(state), middle, prim.t));
                            assert(store.denotes(
                                result,
                                Type::Unification(
                                    old(state).unifications@.len() as u32,
                                ),
                            ));
                            assert(extends(store, types@));
                            lemma_extends_transitive(old(types)@, store, types@);
                            lemma_denotes_extends(
                                store,
                                types@,
                                result,
                                Type::Unification(
                                    old(state).unifications@.len() as u32,
                                ),
                            );
                        }
                        after
                    },
                }
            },
            (ParametersProgress::Relate { binders, result, .. }, _) => {
                ParametersProgress::Done { binders, result }
            },
            (unanswered, _) => unanswered,
        }
    }
}

fn infer_declared_kind(
    state: &mut CheckState,
    types: &mut Types,
    item: TypeItemId,
    binders: Vec<ForallBinder>,
    result: TypeId,
) -> (progress: ParametersProgress)
    requires
        old(types)@.wf(),
    ensures
        final(types)@.wf(),
        extends(old(types)@, final(types)@),
        final(types)@ == old(types)@.with_functions(binder_kinds(binders@), result).0,
        progress.remaining() <= 1,
        kind_inferred(
            *old(state),
            *final(state),
            final(types)@,
            item,
            binders,
            result,
            progress,
        ),
{
    let kind = inferred_kind(types, &binders, result);
    match record_inferred_kind(state, item, kind) {
        Some(expected) => ParametersProgress::Relate { binders, result, kind, expected },
        None => ParametersProgress::Done { binders, result },
    }
}

// Generalisation of a group

/// A kind that is settled, with what is unsolved in it.
#[derive(Debug)]
pub struct SettledKind {
    pub item: TypeItemId,
    pub kind: TypeId,
    pub unsolved: Vec<u32>,
}

/// How far the kinds of a group have been generalised. All of them are settled before
/// the first is generalised.
#[allow(inconsistent_fields)]
#[derive(Debug)]
pub enum KindsProgress {
    /// The kind of the item at the index has to be zonked.
    Zonk { index: usize, known: TypeId, settled: Vec<SettledKind> },
    /// What is unsolved in the kind has to be found.
    Measure { index: usize, kind: TypeId, settled: Vec<SettledKind> },
    /// The kind has to be generalised.
    Generalise { item: TypeItemId, kind: TypeId, unsolved: Vec<u32>, settled: Vec<SettledKind> },
    Done,
}

/// The position of the first item from the index on that has a kind.
pub open spec fn next_kinded(
    kinds: Map<u64, TypeId>,
    items: Seq<TypeItemId>,
    index: int,
) -> Option<int>
    decreases items.len() - index,
{
    if index < 0 || index >= items.len() {
        None
    } else if kinds.contains_key(items[index].raw as u64) {
        Some(index)
    } else {
        next_kinded(kinds, items, index + 1)
    }
}

/// The group goes on with the next item that has a kind; then with generalising what
/// is settled.
pub open spec fn kinds_continued(
    kinds: Map<u64, TypeId>,
    items: Seq<TypeItemId>,
    index: int,
    settled: Seq<SettledKind>,
    progress: KindsProgress,
) -> bool {
    match next_kinded(kinds, items, index) {
        Some(next) => {
            &&& progress matches KindsProgress::Zonk { index: at, known, settled: kept }
            &&& at == next
            &&& known == kinds[items[next].raw as u64]
            &&& kept@ == settled
        },
        None => kinds_generalised(settled, progress),
    }
}

/// The first of the settled kinds is generalised next.
pub open spec fn kinds_generalised(settled: Seq<SettledKind>, progress: KindsProgress) -> bool {
    if settled.len() == 0 {
        progress is Done
    } else {
        &&& progress matches KindsProgress::Generalise { item, kind, unsolved, settled: rest }
        &&& item == settled[0].item
        &&& kind == settled[0].kind
        &&& unsolved == settled[0].unsolved
        &&& rest@ == settled.skip(1)
    }
}

fn generalise_next(settled: Vec<SettledKind>) -> (progress: KindsProgress)
    ensures
        kinds_generalised(settled@, progress),
{
    let mut settled = settled;
    if settled.len() == 0 {
        return KindsProgress::Done;
    }
    let ghost all = settled@;
    let SettledKind { item, kind, unsolved } = settled.remove(0);
    assert(settled@ =~= all.skip(1));
    KindsProgress::Generalise { item, kind, unsolved, settled }
}

fn continue_kinds(
    state: &CheckState,
    items: &Vec<TypeItemId>,
    index: usize,
    settled: Vec<SettledKind>,
) -> (progress: KindsProgress)
    requires
        index <= items@.len(),
    ensures
        kinds_continued(
            state.checked.type_item_kinds@,
            items@,
            index as int,
            settled@,
            progress,
        ),
{
    let ghost kinds = state.checked.type_item_kinds@;
    let mut next: usize = index;
    while next < items.len()
        invariant
            index <= next <= items@.len(),
            kinds == state.checked.type_item_kinds@,
            next_kinded(kinds, items@, index as int) == next_kinded(kinds, items@, next as int),
        decreases items.len() - next,
    {
        if let Some(kind) = state.checked.type_item_kinds.find(items[next].raw as u64) {
            return KindsProgress::Zonk { index: next, known: *kind, settled };
        }
        next += 1;
    }
    generalise_next(settled)
}

/// What the rest of the checker answers.
#[derive(Debug)]
pub enum KindsAnswer {
    Kind(TypeId),
    Unsolved(Vec<u32>),
}

impl KindsProgress {
    pub fn begin(state: &CheckState, items: &Vec<TypeItemId>) -> (progress: KindsProgress)
        ensures
            kinds_continued(
                state.checked.type_item_kinds@,
                items@,
                0,
                Seq::empty(),
                progress,
            ),
    {
        let settled: Vec<SettledKind> = Vec::new();
        assert(settled@ =~= Seq::empty());
        continue_kinds(state, items, 0, settled)
    }

    /// The answer is of the kind that is asked for.
    pub open spec fn is_answered(self, answer: KindsAnswer) -> bool {
        match self {
            KindsProgress::Zonk { .. } => answer is Kind,
            KindsProgress::Measure { .. } => answer is Unsolved,
            KindsProgress::Generalise { .. } => answer is Kind,
            KindsProgress::Done => false,
        }
    }

    /// The item is one of the group.
    pub open spec fn within(self, count: nat) -> bool {
        match self {
            KindsProgress::Zonk { index, .. } => index < count,
            KindsProgress::Measure { index, .. } => index < count,
            _ => true,
        }
    }

    /// Takes an answer. A generalised kind is that of its item.
    pub fn advance(self, state: &mut CheckState, items: &Vec<TypeItemId>, answer: KindsAnswer) -> (
    after: KindsProgress)
        requires
            self.is_answered(answer),
            self.within(items@.len()),
        ensures
            !(self is Generalise) ==> *final(state) == *old(state),
            match (self, answer) {
                (KindsProgress::Zonk { index, settled, .. }, KindsAnswer::Kind(kind)) => after
                    == (KindsProgress::Measure { index, kind, settled }),
                (
                    KindsProgress::Measure { index, kind, settled },
                    KindsAnswer::Unsolved(unsolved),
                ) => kinds_continued(
                    old(state).checked.type_item_kinds@,
                    items@,
                    index + 1,
                    settled@.push(SettledKind { item: items@[index as int], kind, unsolved }),
                    after,
                ),
                (
                    KindsProgress::Generalise { item, settled, .. },
                    KindsAnswer::Kind(generalised),
                ) => {
                    &&& only_kinds(*old(state), *final(state))
                    &&& final(state).checked.type_item_kinds@ == old(
                        state,
                    ).checked.type_item_kinds@.insert(item.raw as u64, generalised)
                    &&& kinds_generalised(settled@, after)
                },
                _ => false,
            },
    {
        match (self, answer) {
            (KindsProgress::Zonk { index, settled, .. }, KindsAnswer::Kind(kind)) => {
                KindsProgress::Measure { index, kind, settled }
            },
            (
                KindsProgress::Measure { index, kind, settled },
                KindsAnswer::Unsolved(unsolved),
            ) => {
                let mut settled = settled;
                settled.push(SettledKind { item: items[index], kind, unsolved });
                assert(index < items.len());
                continue_kinds(state, items, index + 1, settled)
            },
            (KindsProgress::Generalise { item, settled, .. }, KindsAnswer::Kind(generalised)) => {
                record_signature_kind(state, item, generalised);
                generalise_next(settled)
            },
            (unanswered, _) => unanswered,
        }
    }
}

// Finished declarations

/// What is done to finish a group of types, by the positions in the group.
#[allow(inconsistent_fields)]
#[derive(Clone, Copy, Debug, PartialEq, Eq, Structural)]
pub enum FinaliseStep {
    /// The roles of a data type have to be found.
    DataRoles { index: usize },
    /// The roles of a foreign type of the kind have to be found.
    ForeignRoles { index: usize, kind: TypeId },
    Data { index: usize, kind: TypeId },
    Synonym { index: usize, kind: TypeId },
    Class { index: usize, kind: TypeId },
}

/// The sorts of declarations that are finished.
#[derive(Clone, Copy, Debug, PartialEq, Eq, Structural)]
pub enum FinaliseSort {
    Foreign,
    Data,
    Synonym,
    Class,
}

/// What is done to finish a declaration.
pub open spec fn finalise_step(sort: FinaliseSort, index: int, kind: TypeId) -> FinaliseStep {
    let index = index as usize;
    match sort {
        FinaliseSort::Foreign => FinaliseStep::ForeignRoles { index, kind },
        FinaliseSort::Data => FinaliseStep::Data { index, kind },
        FinaliseSort::Synonym => FinaliseStep::Synonym { index, kind },
        FinaliseSort::Class => FinaliseStep::Class { index, kind },
    }
}

/// What is done to finish those of some declarations that have a kind, in order.
pub open spec fn kinded_steps(
    kinds: Map<u64, TypeId>,
    items: Seq<TypeItemId>,
    sort: FinaliseSort,
) -> Seq<FinaliseStep>
    decreases items.len(),
{
    if items.len() == 0 {
        Seq::empty()
    } else {
        let before = kinded_steps(kinds, items.drop_last(), sort);
        let key = items.last().raw as u64;
        if kinds.contains_key(key) {
            before.push(finalise_step(sort, items.len() - 1, kinds[key]))
        } else {
            before
        }
    }
}

/// What is done to finish a group: all roles come first, then data types, synonyms and
/// classes. Declarations without a kind are passed over.
pub open spec fn finalise_steps(kinds: Map<u64, TypeId>, scc: TypeSccState) -> Seq<FinaliseStep> {
    Seq::new(scc.data@.len(), |i: int| FinaliseStep::DataRoles { index: i as usize })
        + kinded_steps(
        kinds,
        scc.foreign@.map_values(|foreign: PendingForeign| foreign.item),
        FinaliseSort::Foreign,
    ) + kinded_steps(
        kinds,
        scc.data@.map_values(|data: PendingData| data.item),
        FinaliseSort::Data,
    ) + kinded_steps(
        kinds,
        scc.synonyms@.map_values(|synonym: PendingSynonym| synonym.item),
        FinaliseSort::Synonym,
    ) + kinded_steps(
        kinds,
        scc.classes@.map_values(|class: PendingClass| class.item),
        FinaliseSort::Class,
    )
}

fn push_step(
    state: &CheckState,
    item: TypeItemId,
    index: usize,
    sort: FinaliseSort,
    steps: &mut Vec<FinaliseStep>,
)
    ensures
        ({
            let kinds = state.checked.type_item_kinds@;
            let key = item.raw as u64;
            final(steps)@ == (if kinds.contains_key(key) {
                old(steps)@.push(finalise_step(sort, index as int, kinds[key]))
            } else {
                old(steps)@
            })
        }),
{
    if let Some(kind) = state.checked.type_item_kinds.find(item.raw as u64) {
        let kind = *kind;
        steps.push(
            match sort {
                FinaliseSort::Foreign => FinaliseStep::ForeignRoles { index, kind },
                FinaliseSort::Data => FinaliseStep::Data { index, kind },
                FinaliseSort::Synonym => FinaliseStep::Synonym { index, kind },
                FinaliseSort::Class => FinaliseStep::Class { index, kind },
            },
        );
    }
}

fn push_steps(
    state: &CheckState,
    items: &Vec<TypeItemId>,
    sort: FinaliseSort,
    steps: &mut Vec<FinaliseStep>,
)
    ensures
        final(steps)@ == old(steps)@ + kinded_steps(
            state.checked.type_item_kinds@,
            items@,
            sort,
        ),
{
    let ghost kinds = state.checked.type_item_kinds@;
    let mut index: usize = 0;
    assert(items@.take(0) =~= Seq::empty());
    assert(steps@ =~= old(steps)@ + kinded_steps(kinds, items@.take(0), sort));
    while index < items.len()
        invariant
            index <= items.len(),
            kinds == state.checked.type_item_kinds@,
            steps@ == old(steps)@ + kinded_steps(kinds, items@.take(index as int), sort),
        decreases items.len() - index,
    {
        assert(items@.take(index + 1).drop_last() =~= items@.take(index as int));
        push_step(state, items[index], index, sort, steps);
        assert(steps@ =~= old(steps)@ + kinded_steps(kinds, items@.take(index + 1), sort));
        index += 1;
    }
    assert(items@.take(index as int) =~= items@);
}

/// What is done to finish a group, in order.
pub fn type_finalise_steps(state: &CheckState, scc: &TypeSccState) -> (steps: Vec<FinaliseStep>)
    ensures
        steps@ == finalise_steps(state.checked.type_item_kinds@, *scc),
{
    let ghost kinds = state.checked.type_item_kinds@;
    let mut steps: Vec<FinaliseStep> = Vec::new();
    let mut data: Vec<TypeItemId> = Vec::new();
    let mut index: usize = 0;
    while index < scc.data.len()
        invariant
            index <= scc.data.len(),
            data@ =~= scc.data@.map_values(|data: PendingData| data.item).take(index as int),
            steps@ =~= Seq::new(
                index as nat,
                |i: int| FinaliseStep::DataRoles { index: i as usize },
            ),
        decreases scc.data.len() - index,
    {
        data.push(scc.data[index].item);
        steps.push(FinaliseStep::DataRoles { index });
        index += 1;
    }
    let mut foreign: Vec<TypeItemId> = Vec::new();
    let mut index: usize = 0;
    while index < scc.foreign.len()
        invariant
            index <= scc.foreign.len(),
            foreign@ =~= scc.foreign@.map_values(
                |foreign: PendingForeign| foreign.item,
            ).take(index as int),
        decreases scc.foreign.len() - index,
    {
        foreign.push(scc.foreign[index].item);
        index += 1;
    }
    let mut synonyms: Vec<TypeItemId> = Vec::new();
    let mut index: usize = 0;
    while index < scc.synonyms.len()
        invariant
            index <= scc.synonyms.len(),
            synonyms@ =~= scc.synonyms@.map_values(
                |synonym: PendingSynonym| synonym.item,
            ).take(index as int),
        decreases scc.synonyms.len() - index,
    {
        synonyms.push(scc.synonyms[index].item);
        index += 1;
    }
    let mut classes: Vec<TypeItemId> = Vec::new();
    let mut index: usize = 0;
    while index < scc.classes.len()
        invariant
            index <= scc.classes.len(),
            classes@ =~= scc.classes@.map_values(|class: PendingClass| class.item).take(
                index as int,
            ),
        decreases scc.classes.len() - index,
    {
        classes.push(scc.classes[index].item);
        index += 1;
    }
    proof {
        assert(data@ =~= scc.data@.map_values(|data: PendingData| data.item));
        assert(foreign@ =~= scc.foreign@.map_values(|foreign: PendingForeign| foreign.item));
        assert(synonyms@ =~= scc.synonyms@.map_values(|synonym: PendingSynonym| synonym.item));
        assert(classes@ =~= scc.classes@.map_values(|class: PendingClass| class.item));
    }
    push_steps(state, &foreign, FinaliseSort::Foreign, &mut steps);
    push_steps(state, &data, FinaliseSort::Data, &mut steps);
    push_steps(state, &synonyms, FinaliseSort::Synonym, &mut steps);
    push_steps(state, &classes, FinaliseSort::Class, &mut steps);
    steps
}

/// A data type that is finished with the arguments of its constructors, in order.
pub fn resolve_data(
    data: &PendingData,
    kind: TypeId,
    head: TypeHead,
    arguments: &Vec<TypeId>,
) -> (resolved: ResolvedData)
    requires
        arguments@.len() == all_arguments(data.constructors@).len(),
    ensures
        resolved == (ResolvedData {
            item_id: data.item,
            newtype: data.newtype,
            kind,
            head,
            constructors: resolved.constructors,
        }),
        same_shape(data.constructors@, resolved.constructors@),
        all_arguments(resolved.constructors@) == arguments@,
{
    let constructors = with_arguments(&data.constructors, arguments);
    ResolvedData { item_id: data.item, newtype: data.newtype, kind, head, constructors }
}

/// The types of a class that have to be zonked: its superclasses, then its members.
pub open spec fn class_types(class: PendingClass) -> Seq<TypeId> {
    class.superclasses@.map_values(|superclass: CheckedSuperclass| superclass.constraint)
        + class.members@.map_values(|member: (TermItemId, TypeId)| member.1)
}

/// The types of a class that have to be zonked: its superclasses, then its members.
pub fn types_of_class(class: &PendingClass) -> (types: Vec<TypeId>)
    ensures
        types@ == class_types(*class),
{
    let ghost all = class_types(*class);
    let mut types: Vec<TypeId> = Vec::new();
    let mut index: usize = 0;
    while index < class.superclasses.len()
        invariant
            index <= class.superclasses.len() <= all.len(),
            all == class_types(*class),
            types@ =~= all.take(index as int),
        decreases class.superclasses.len() - index,
    {
        types.push(class.superclasses[index].constraint);
        assert(types@ =~= all.take(index + 1));
        index += 1;
    }
    let mut index: usize = 0;
    while index < class.members.len()
        invariant
            index <= class.members.len(),
            all == class_types(*class),
            types@ =~= all.take(class.superclasses@.len() + index),
        decreases class.members.len() - index,
    {
        types.push(class.members[index].1);
        assert(types@ =~= all.take(class.superclasses@.len() + index + 1));
        index += 1;
    }
    assert(types@ =~= all);
    types
}

/// A class that is finished: its types have been zonked, in order.
pub fn resolve_class(
    class: PendingClass,
    kind: TypeId,
    kinds: Vec<ForallBinder>,
    given: Vec<TypeId>,
    zonked: &Vec<TypeId>,
) -> (resolved: ResolvedClass)
    requires
        zonked@.len() == class_types(class).len(),
    ensures
        resolved == (ResolvedClass {
            item_id: class.item,
            kind,
            kinds,
            given,
            parameters: class.parameters,
            superclasses: resolved.superclasses,
            functional_dependencies: class.functional_dependencies,
            members: resolved.members,
        }),
        resolved.superclasses@ == Seq::new(
            class.superclasses@.len(),
            |i: int|
                CheckedSuperclass {
                    source_id: class.superclasses@[i].source_id,
                    constraint: zonked@[i],
                },
        ),
        resolved.members@ == Seq::new(
            class.members@.len(),
            |i: int|
                ClassMember {
                    source: class.members@[i].0,
                    field_type: zonked@[class.superclasses@.len() + i],
                },
        ),
{
    let ghost first = Seq::new(
        class.superclasses@.len(),
        |i: int|
            CheckedSuperclass {
                source_id: class.superclasses@[i].source_id,
                constraint: zonked@[i],
            },
    );
    let ghost second = Seq::new(
        class.members@.len(),
        |i: int|
            ClassMember {
                source: class.members@[i].0,
                field_type: zonked@[class.superclasses@.len() + i],
            },
    );
    let count: usize = class.superclasses.len();
    let mut superclasses: Vec<CheckedSuperclass> = Vec::new();
    let mut index: usize = 0;
    while index < count
        invariant
            index <= count,
            count == class.superclasses@.len(),
            first.len() == count,
            count <= zonked@.len(),
            forall|i: int|
                0 <= i < count ==> #[trigger] first[i] == (CheckedSuperclass {
                    source_id: class.superclasses@[i].source_id,
                    constraint: zonked@[i],
                }),
            superclasses@ =~= first.take(index as int),
        decreases count - index,
    {
        let source_id = class.superclasses[index].source_id;
        superclasses.push(CheckedSuperclass { source_id, constraint: zonked[index] });
        assert(superclasses@ =~= first.take(index + 1));
        index += 1;
    }
    assert(superclasses@ =~= first);
    let mut members: Vec<ClassMember> = Vec::new();
    let mut index: usize = 0;
    while index < class.members.len()
        invariant
            index <= class.members.len(),
            second.len() == class.members@.len(),
            zonked@.len() == count + class.members@.len(),
            forall|i: int|
                0 <= i < second.len() ==> #[trigger] second[i] == (ClassMember {
                    source: class.members@[i].0,
                    field_type: zonked@[count + i],
                }),
            members@ =~= second.take(index as int),
        decreases class.members.len() - index,
    {
        let source = class.members[index].0;
        assert(count + index < zonked.len());
        members.push(ClassMember { source, field_type: zonked[count + index] });
        assert(members@ =~= second.take(index + 1));
        index += 1;
    }
    assert(members@ =~= second);
    ResolvedClass {
        item_id: class.item,
        kind,
        kinds,
        given,
        parameters: class.parameters,
        superclasses,
        functional_dependencies: class.functional_dependencies,
        members,
    }
}

} // verus!
