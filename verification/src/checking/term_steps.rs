//! Values and the members of instances, step by step.
//!
//! Progress tells what is asked next of the rest of the checker, and takes the
//! answer.

use super::derive::generate::{instance_declaration, instance_of, DeriveHead};
use super::evidence::EvidenceVarId;
use super::lowering::SourceTypeId;
use super::state::{
    exhaustiveness_reported, unification_added, wanted, CheckState, CheckedModule,
    ExhaustivenessReport,
};
use super::term_items::{
    begin_inferred_group, check_value_group_core, constrained_value,
    emit_instance_superclass_constraints, evidence_abstractions, finalise_value, is_pending,
    missing_names, missing_reported, pending_value, report_missing_members, sort_members,
    sorted_members, superclasses_emitted, value_finalised, ClassMemberName, ConstrainedType,
    GeneralisedParameter, GeneralisedValue, PendingValueGroup, Residual, SuperclassConstraint,
    TermSccState, ValueGroupRequest,
};
use super::terms::equations::{CheckedValueEquations, EquationTypeOrigin};
use super::terms::form_do::is_variable;
use super::tree::{
    entry, InstanceEvidence, InstanceImplementation, InstanceMember, InstanceSuperclass,
    TermDeclaration,
};
use super::types::{extends, FileId, Prim, TypeId, TypeStore, Types};
use crate::indexing::items::{TermItemId, TypeItemId};
use crate::indexing::source::AstId;
use vstd::prelude::*;

verus! {

// Values

/// How far a value has come.
#[allow(inconsistent_fields)]
#[derive(Debug)]
pub enum ValueProgress {
    /// The equations have to be checked against the type.
    Check { origin: EquationTypeOrigin, expected: TypeId },
    /// The equations have to be inferred.
    Infer { group_type: TypeId },
    /// The patterns of the equations have to be looked at.
    Patterns { inferred: bool, checked: CheckedValueEquations },
    /// The constraints that came up have to be solved.
    Solve { inferred: bool, checked: CheckedValueEquations },
    Done { group: PendingValueGroup },
}

/// What is asked of the rest of the checker for a value.
#[derive(Debug)]
pub enum ValueAnswer {
    Equations(CheckedValueEquations),
    Patterns(ExhaustivenessReport),
    Residuals(Vec<Residual>),
}

/// The value begins: with the type that its signature was found to have, or with a
/// type that is still to be found, which is recorded.
pub open spec fn value_begun(
    before: CheckState,
    after: CheckState,
    store: TypeStore,
    prim: Prim,
    item_id: TermItemId,
    signature: Option<SourceTypeId>,
    progress: ValueProgress,
) -> bool {
    let known = before.checked.term_item_types@;
    let key = item_id.raw as u64;
    if signature is Some && known.contains_key(key) {
        &&& after == before
        &&& progress == (ValueProgress::Check {
            origin: EquationTypeOrigin::Explicit(signature->0),
            expected: known[key],
        })
    } else {
        &&& progress matches ValueProgress::Infer { group_type }
        &&& is_variable(store, group_type, before.unifications@.len())
        &&& after.checked.term_item_types@ == known.insert(key, group_type)
        &&& exists|middle: CheckState| #[trigger]
            unification_added(before, middle, prim.t) && after == (CheckState {
                checked: CheckedModule {
                    term_item_types: after.checked.term_item_types,
                    ..middle.checked
                },
                ..middle
            })
    }
}

/// The group of equations, with the constraints that were not solved.
pub open spec fn value_group(
    inferred: bool,
    checked: CheckedValueEquations,
    residuals: Vec<Residual>,
) -> PendingValueGroup {
    if inferred {
        PendingValueGroup::Inferred { residuals, equations: checked.equations }
    } else {
        PendingValueGroup::Checked {
            residuals,
            abstractions: checked.abstractions,
            equations: checked.equations,
        }
    }
}

impl ValueProgress {
    pub fn begin(
        state: &mut CheckState,
        types: &mut Types,
        prim: &Prim,
        item_id: TermItemId,
        signature: Option<SourceTypeId>,
    ) -> (progress: ValueProgress)
        requires
            old(state).unifications.wf(),
            !old(state).unifications.is_frozen(),
            old(state).unifications@.len() < u32::MAX,
            old(types)@.wf(),
        ensures
            final(types)@.wf(),
            extends(old(types)@, final(types)@),
            final(types)@ == (if progress is Infer {
                old(types)@.with_variable(old(state).unifications@.len())
            } else {
                old(types)@
            }),
            value_begun(
                *old(state),
                *final(state),
                final(types)@,
                *prim,
                item_id,
                signature,
                progress,
            ),
            progress.remaining() == 3,
    {
        match check_value_group_core(state, item_id, signature) {
            ValueGroupRequest::Check { signature, signature_type } => ValueProgress::Check {
                origin: EquationTypeOrigin::Explicit(signature),
                expected: signature_type,
            },
            ValueGroupRequest::Infer => ValueProgress::Infer {
                group_type: begin_inferred_group(state, types, prim, item_id),
            },
        }
    }

    /// The answer is of the kind that is asked for.
    pub open spec fn is_answered(self, answer: ValueAnswer) -> bool {
        match self {
            ValueProgress::Check { .. } => answer is Equations,
            ValueProgress::Infer { .. } => answer is Equations,
            ValueProgress::Patterns { .. } => answer is Patterns,
            ValueProgress::Solve { .. } => answer is Residuals,
            ValueProgress::Done { .. } => false,
        }
    }

    /// How many answers are still to come.
    pub open spec fn remaining(self) -> nat {
        match self {
            ValueProgress::Check { .. } => 3,
            ValueProgress::Infer { .. } => 3,
            ValueProgress::Patterns { .. } => 2,
            ValueProgress::Solve { .. } => 1,
            ValueProgress::Done { .. } => 0,
        }
    }

    /// Takes an answer. An inferred value whose patterns are not exhaustive is partial,
    /// and evidence of that is asked for.
    pub fn advance(self, state: &mut CheckState, prim: &Prim, answer: ValueAnswer) -> (after:
        ValueProgress)
        requires
            self.is_answered(answer),
            old(state).implications@.wf(),
            old(state).checked.evidence@.variables.len() <= u32::MAX,
        ensures
            after.remaining() + 1 == self.remaining(),
            !(self is Patterns) ==> *final(state) == *old(state),
            match (self, answer) {
                (ValueProgress::Check { .. }, ValueAnswer::Equations(checked)) => after == (
                ValueProgress::Patterns { inferred: false, checked }),
                (ValueProgress::Infer { .. }, ValueAnswer::Equations(checked)) => after == (
                ValueProgress::Patterns { inferred: true, checked }),
                (
                    ValueProgress::Patterns { inferred, checked },
                    ValueAnswer::Patterns(report),
                ) => {
                    &&& after == (ValueProgress::Solve { inferred, checked })
                    &&& !(inferred && report.missing is Some) ==> exhaustiveness_reported(
                        *old(state),
                        *final(state),
                        report,
                    )
                    &&& inferred && report.missing is Some ==> exists|
                        middle: CheckState,
                        evidence: EvidenceVarId,
                    | #[trigger]
                        exhaustiveness_reported(*old(state), middle, report) && #[trigger] wanted(
                            middle,
                            *final(state),
                            prim.partial,
                            evidence,
                        )
                },
                (
                    ValueProgress::Solve { inferred, checked },
                    ValueAnswer::Residuals(residuals),
                ) => after == (ValueProgress::Done {
                    group: value_group(inferred, checked, residuals),
                }),
                _ => false,
            },
    {
        match (self, answer) {
            (ValueProgress::Check { .. }, ValueAnswer::Equations(checked)) => {
                ValueProgress::Patterns { inferred: false, checked }
            },
            (ValueProgress::Infer { .. }, ValueAnswer::Equations(checked)) => {
                ValueProgress::Patterns { inferred: true, checked }
            },
            (ValueProgress::Patterns { inferred, checked }, ValueAnswer::Patterns(report)) => {
                let missing = report.missing.is_some();
                state.report_exhaustiveness(report);
                if inferred && missing {
                    let ghost middle = *state;
                    let evidence = state.push_wanted(prim.partial);
                    assert(exhaustiveness_reported(*old(state), middle, report));
                    assert(wanted(middle, *state, prim.partial, evidence));
                }
                ValueProgress::Solve { inferred, checked }
            },
            (ValueProgress::Solve { inferred, checked }, ValueAnswer::Residuals(residuals)) => {
                let group = if inferred {
                    PendingValueGroup::Inferred { residuals, equations: checked.equations }
                } else {
                    PendingValueGroup::Checked {
                        residuals,
                        abstractions: checked.abstractions,
                        equations: checked.equations,
                    }
                };
                ValueProgress::Done { group }
            },
            (unanswered, _) => unanswered,
        }
    }
}

// Generalisation of a group

/// A type that has been quantified over what was unsolved in it.
#[derive(Debug)]
pub struct GeneralisedType {
    pub type_id: TypeId,
    pub parameters: Vec<GeneralisedParameter>,
}

/// A value whose type is settled, with what is unsolved in it.
#[derive(Debug)]
pub struct SettledValue {
    pub value: GeneralisedValue,
    pub unsolved: Vec<u32>,
}

/// How far the values of a group have been finished. All of them are settled before
/// the first is generalised.
#[allow(inconsistent_fields)]
#[derive(Debug)]
pub enum GroupProgress {
    /// The type of the item at the index has to be zonked.
    Zonk { index: usize, known: TypeId, settled: Vec<SettledValue> },
    /// The residuals have to become constraints of the type.
    Constrain {
        index: usize,
        value: GeneralisedValue,
        residuals: Vec<Residual>,
        settled: Vec<SettledValue>,
    },
    /// The type of the value has to be zonked again.
    Settle { index: usize, value: GeneralisedValue, settled: Vec<SettledValue> },
    /// What is unsolved in the type has to be found.
    Measure { index: usize, value: GeneralisedValue, settled: Vec<SettledValue> },
    /// The type has to be generalised, and the sources of its equations to be found.
    Generalise { value: GeneralisedValue, unsolved: Vec<u32>, settled: Vec<SettledValue> },
    Done,
}

/// The position of the first item from the index on that has a type.
pub open spec fn next_typed(
    known: Map<u64, TypeId>,
    items: Seq<TermItemId>,
    index: int,
) -> Option<int>
    decreases items.len() - index,
{
    if index < 0 || index >= items.len() {
        None
    } else if known.contains_key(items[index].raw as u64) {
        Some(index)
    } else {
        next_typed(known, items, index + 1)
    }
}

/// The group goes on with the next item that has a type; then with generalising what
/// is settled.
pub open spec fn group_continued(
    known: Map<u64, TypeId>,
    items: Seq<TermItemId>,
    index: int,
    settled: Seq<SettledValue>,
    progress: GroupProgress,
) -> bool {
    match next_typed(known, items, index) {
        Some(next) => {
            &&& progress matches GroupProgress::Zonk { index: at, known: type_id, settled: kept }
            &&& at == next
            &&& type_id == known[items[next].raw as u64]
            &&& kept@ == settled
        },
        None => group_generalised(settled, progress),
    }
}

/// The first of the settled values is generalised next.
pub open spec fn group_generalised(settled: Seq<SettledValue>, progress: GroupProgress) -> bool {
    if settled.len() == 0 {
        progress is Done
    } else {
        &&& progress matches GroupProgress::Generalise { value, unsolved, settled: rest }
        &&& value == settled[0].value
        &&& unsolved == settled[0].unsolved
        &&& rest@ == settled.skip(1)
    }
}

fn generalise_next(settled: Vec<SettledValue>) -> (progress: GroupProgress)
    ensures
        group_generalised(settled@, progress),
{
    let mut settled = settled;
    if settled.len() == 0 {
        return GroupProgress::Done;
    }
    let ghost all = settled@;
    let first = settled.remove(0);
    assert(settled@ =~= all.skip(1));
    GroupProgress::Generalise { value: first.value, unsolved: first.unsolved, settled }
}

fn continue_group(
    state: &CheckState,
    items: &Vec<TermItemId>,
    index: usize,
    settled: Vec<SettledValue>,
) -> (progress: GroupProgress)
    requires
        index <= items@.len(),
    ensures
        group_continued(
            state.checked.term_item_types@,
            items@,
            index as int,
            settled@,
            progress,
        ),
{
    let ghost known = state.checked.term_item_types@;
    let mut next: usize = index;
    while next < items.len()
        invariant
            index <= next <= items@.len(),
            known == state.checked.term_item_types@,
            next_typed(known, items@, index as int) == next_typed(known, items@, next as int),
        decreases items.len() - next,
    {
        if let Some(type_id) = state.checked.term_item_types.find(items[next].raw as u64) {
            return GroupProgress::Zonk { index: next, known: *type_id, settled };
        }
        next += 1;
    }
    generalise_next(settled)
}

/// What the rest of the checker answers.
#[derive(Debug)]
pub enum GroupAnswer {
    Type(TypeId),
    Constrained(ConstrainedType),
    Unsolved(Vec<u32>),
    Generalised(GeneralisedType, Option<Vec<AstId>>),
}

/// The value with its generalised type.
pub open spec fn with_generalised(
    value: GeneralisedValue,
    generalised: GeneralisedType,
) -> GeneralisedValue {
    GeneralisedValue {
        type_id: generalised.type_id,
        parameters: generalised.parameters,
        ..value
    }
}

/// The value that may be missing, borrowed.
pub open spec fn optional_ref<T>(value: &Option<T>) -> Option<&T> {
    match value {
        Some(value) => Some(value),
        None => None,
    }
}

impl GroupProgress {
    pub fn begin(state: &CheckState, items: &Vec<TermItemId>) -> (progress: GroupProgress)
        ensures
            group_continued(
                state.checked.term_item_types@,
                items@,
                0,
                Seq::empty(),
                progress,
            ),
    {
        let settled: Vec<SettledValue> = Vec::new();
        assert(settled@ =~= Seq::empty());
        continue_group(state, items, 0, settled)
    }

    /// The answer is of the kind that is asked for.
    pub open spec fn is_answered(self, answer: GroupAnswer) -> bool {
        match self {
            GroupProgress::Zonk { .. } => answer is Type,
            GroupProgress::Constrain { .. } => answer is Constrained,
            GroupProgress::Settle { .. } => answer is Type,
            GroupProgress::Measure { .. } => answer is Unsolved,
            GroupProgress::Generalise { .. } => answer is Generalised,
            GroupProgress::Done => false,
        }
    }

    /// The item is one of the group.
    pub open spec fn within(self, count: nat) -> bool {
        match self {
            GroupProgress::Zonk { index, .. } => index < count,
            GroupProgress::Constrain { index, .. } => index < count,
            GroupProgress::Settle { index, .. } => index < count,
            GroupProgress::Measure { index, .. } => index < count,
            _ => true,
        }
    }

    /// Takes an answer.
    pub fn advance(
        self,
        state: &mut CheckState,
        pending: &mut TermSccState,
        items: &Vec<TermItemId>,
        recursive: bool,
        answer: GroupAnswer,
    ) -> (after: GroupProgress)
        requires
            self.is_answered(answer),
            self.within(items@.len()),
            self matches GroupProgress::Generalise { value, .. } ==> {
                &&& old(state).checked.tree@.term_declarations.len() <= u32::MAX
                &&& value.item_id.raw < usize::MAX
                &&& forall|i: int|
                    0 <= i < value.unsatisfied@.len() ==> (
                    #[trigger] value.unsatisfied@[i]).evidence.raw < old(
                        state,
                    ).checked.evidence@.variables.len()
            },
        ensures
            !(self is Generalise) ==> *final(state) == *old(state),
            !(self is Zonk) ==> final(pending).value_groups@ == old(pending).value_groups@,
            match (self, answer) {
                (GroupProgress::Zonk { index, settled, .. }, GroupAnswer::Type(type_id)) => {
                    let item_id = items@[index as int];
                    let group = entry(old(pending).value_groups@, item_id.raw as u64);
                    &&& final(pending).value_groups@ == old(pending).value_groups@.remove(
                        item_id.raw as u64,
                    )
                    &&& match after {
                        GroupProgress::Constrain { index: at, value, residuals, settled: kept } => {
                            &&& at == index
                            &&& kept == settled
                            &&& is_pending(item_id, type_id, group, value, Some(residuals))
                        },
                        GroupProgress::Settle { index: at, value, settled: kept } => {
                            &&& at == index
                            &&& kept == settled
                            &&& is_pending(item_id, type_id, group, value, None)
                        },
                        _ => false,
                    }
                },
                (
                    GroupProgress::Constrain { index, value, settled, .. },
                    GroupAnswer::Constrained(constrained),
                ) => {
                    &&& after matches GroupProgress::Settle {
                        index: at,
                        value: next,
                        settled: kept,
                    }
                    &&& at == index
                    &&& kept == settled
                    &&& next == (GeneralisedValue {
                        type_id: constrained.type_id,
                        abstractions: next.abstractions,
                        inferred_constraints: constrained.constraints@.len() > 0,
                        ambiguous: constrained.ambiguous,
                        unsatisfied: constrained.unsatisfied,
                        ..value
                    })
                    &&& next.abstractions@ == evidence_abstractions(constrained.constraints@)
                },
                (
                    GroupProgress::Settle { index, value, settled },
                    GroupAnswer::Type(type_id),
                ) => after == (GroupProgress::Measure {
                    index,
                    value: GeneralisedValue { type_id, ..value },
                    settled,
                }),
                (
                    GroupProgress::Measure { index, value, settled },
                    GroupAnswer::Unsolved(unsolved),
                ) => group_continued(
                    old(state).checked.term_item_types@,
                    items@,
                    index + 1,
                    settled@.push(SettledValue { value, unsolved }),
                    after,
                ),
                (
                    GroupProgress::Generalise { value, settled, .. },
                    GroupAnswer::Generalised(generalised, sources),
                ) => {
                    &&& value_finalised(
                        *old(state),
                        *final(state),
                        with_generalised(value, generalised),
                        optional_ref(&sources),
                        recursive,
                    )
                    &&& group_generalised(settled@, after)
                },
                _ => false,
            },
    {
        match (self, answer) {
            (GroupProgress::Zonk { index, settled, .. }, GroupAnswer::Type(type_id)) => {
                let item_id = items[index];
                let (value, left) = pending_value(item_id, type_id, pending.take(item_id));
                match left {
                    Some(residuals) => GroupProgress::Constrain {
                        index,
                        value,
                        residuals,
                        settled,
                    },
                    None => GroupProgress::Settle { index, value, settled },
                }
            },
            (
                GroupProgress::Constrain { index, value, settled, .. },
                GroupAnswer::Constrained(constrained),
            ) => GroupProgress::Settle {
                index,
                value: constrained_value(value, constrained),
                settled,
            },
            (GroupProgress::Settle { index, value, settled }, GroupAnswer::Type(type_id)) => {
                GroupProgress::Measure {
                    index,
                    value: GeneralisedValue { type_id, ..value },
                    settled,
                }
            },
            (
                GroupProgress::Measure { index, value, settled },
                GroupAnswer::Unsolved(unsolved),
            ) => {
                let mut settled = settled;
                settled.push(SettledValue { value, unsolved });
                assert(index < items.len());
                continue_group(state, items, index + 1, settled)
            },
            (
                GroupProgress::Generalise { value, settled, .. },
                GroupAnswer::Generalised(generalised, sources),
            ) => {
                let value = GeneralisedValue {
                    type_id: generalised.type_id,
                    parameters: generalised.parameters,
                    ..value
                };
                finalise_value(state, value, sources.as_ref(), recursive);
                generalise_next(settled)
            },
            (unanswered, _) => unanswered,
        }
    }
}

// Members of instances

/// An instance whose members are checked: its class, the constraints that it is given,
/// and how many members its source has.
#[derive(Debug)]
pub struct InstanceMembers {
    pub class: (FileId, TypeItemId),
    pub constraints: Vec<TypeId>,
    pub count: usize,
}

/// How far the members of an instance have come.
#[allow(inconsistent_fields)]
#[derive(Debug)]
pub enum MembersProgress {
    /// The superclasses for the instance have to be found.
    Superclasses,
    /// The member at the index has to be checked.
    Member {
        index: usize,
        superclasses: Vec<InstanceSuperclass>,
        members: Vec<InstanceMember>,
    },
    /// Whether the constraint at the index is one that always fails.
    Failing {
        index: usize,
        superclasses: Vec<InstanceSuperclass>,
        members: Vec<InstanceMember>,
    },
    /// The members of the class have to be found.
    Names {
        suppress: bool,
        superclasses: Vec<InstanceSuperclass>,
        members: Vec<InstanceMember>,
    },
    /// The constraints that came up have to be solved.
    Solve { superclasses: Vec<InstanceSuperclass>, members: Vec<InstanceMember> },
    Done { superclasses: Vec<InstanceSuperclass>, members: Vec<InstanceMember> },
}

/// What the rest of the checker answers.
#[derive(Debug)]
pub enum MembersAnswer {
    Superclasses(Vec<SuperclassConstraint>),
    Member(Option<InstanceMember>),
    Failing(bool),
    Names(Option<Vec<ClassMemberName>>),
    Solved,
}

/// What follows before the member at the index: that member, or, for an instance
/// without members, the constraints that it is given.
pub open spec fn members_continued(
    instance: InstanceMembers,
    index: nat,
    superclasses: Vec<InstanceSuperclass>,
    members: Seq<InstanceMember>,
    progress: MembersProgress,
) -> bool {
    if index < instance.count {
        &&& progress matches MembersProgress::Member {
            index: at,
            superclasses: kept,
            members: checked,
        }
        &&& at == index
        &&& kept == superclasses
        &&& checked@ == members
    } else if instance.count == 0 && instance.constraints@.len() > 0 {
        &&& progress matches MembersProgress::Failing {
            index: at,
            superclasses: kept,
            members: checked,
        }
        &&& at == 0
        &&& kept == superclasses
        &&& checked@ == members
    } else {
        &&& progress matches MembersProgress::Names {
            suppress,
            superclasses: kept,
            members: checked,
        }
        &&& !suppress
        &&& kept == superclasses
        &&& checked@ == members
    }
}

fn continue_members(
    instance: &InstanceMembers,
    index: usize,
    superclasses: Vec<InstanceSuperclass>,
    members: Vec<InstanceMember>,
) -> (progress: MembersProgress)
    ensures
        members_continued(*instance, index as nat, superclasses, members@, progress),
{
    if index < instance.count {
        MembersProgress::Member { index, superclasses, members }
    } else if instance.count == 0 && instance.constraints.len() > 0 {
        MembersProgress::Failing { index: 0, superclasses, members }
    } else {
        MembersProgress::Names { suppress: false, superclasses, members }
    }
}

/// The members with one more, if there is one.
pub open spec fn with_member(
    members: Seq<InstanceMember>,
    member: Option<InstanceMember>,
) -> Seq<InstanceMember> {
    match member {
        Some(member) => members.push(member),
        None => members,
    }
}

impl MembersProgress {
    /// The answer is of the kind that is asked for.
    pub open spec fn is_answered(self, answer: MembersAnswer) -> bool {
        match self {
            MembersProgress::Superclasses => answer is Superclasses,
            MembersProgress::Member { .. } => answer is Member,
            MembersProgress::Failing { .. } => answer is Failing,
            MembersProgress::Names { .. } => answer is Names,
            MembersProgress::Solve { .. } => answer is Solved,
            MembersProgress::Done { .. } => false,
        }
    }

    /// The member or the constraint is one of the instance.
    pub open spec fn within(self, instance: InstanceMembers) -> bool {
        match self {
            MembersProgress::Member { index, .. } => index < instance.count,
            MembersProgress::Failing { index, .. } => index < instance.constraints@.len(),
            _ => true,
        }
    }

    /// Takes an answer. Members that are missing are reported, but for an instance
    /// without members that is given a constraint which always fails; members are put
    /// into the order of the class.
    pub fn advance(self, state: &mut CheckState, instance: &InstanceMembers, answer: MembersAnswer) -> (
    after: MembersProgress)
        requires
            self.is_answered(answer),
            self.within(*instance),
            old(state).implications@.wf(),
            answer matches MembersAnswer::Superclasses(superclasses) ==> old(
                state,
            ).checked.evidence@.variables.len() + superclasses@.len() <= u32::MAX,
        ensures
            after.within(*instance),
            !(self is Superclasses) && !(self is Names) ==> *final(state) == *old(state),
            match (self, answer) {
                (MembersProgress::Superclasses, MembersAnswer::Superclasses(superclasses)) => {
                    exists|checked: Vec<InstanceSuperclass>| #[trigger]
                        superclasses_emitted(
                            *old(state),
                            *final(state),
                            instance.class,
                            superclasses@,
                            checked@,
                        ) && members_continued(*instance, 0, checked, Seq::empty(), after)
                },
                (
                    MembersProgress::Member { index, superclasses, members },
                    MembersAnswer::Member(member),
                ) => members_continued(
                    *instance,
                    (index + 1) as nat,
                    superclasses,
                    with_member(members@, member),
                    after,
                ),
                (
                    MembersProgress::Failing { index, superclasses, members },
                    MembersAnswer::Failing(failing),
                ) => if !failing && index + 1 < instance.constraints@.len() {
                    after == (MembersProgress::Failing {
                        index: (index + 1) as usize,
                        superclasses,
                        members,
                    })
                } else {
                    after == (MembersProgress::Names { suppress: failing, superclasses, members })
                },
                (
                    MembersProgress::Names { suppress, superclasses, members },
                    MembersAnswer::Names(names),
                ) => {
                    &&& after matches MembersProgress::Solve {
                        superclasses: kept,
                        members: sorted,
                    }
                    &&& kept == superclasses
                    &&& match names {
                        Some(names) => {
                            &&& missing_reported(
                                *old(state),
                                *final(state),
                                missing_names(instance.class.0, names@, members@),
                                suppress,
                            )
                            &&& sorted@ == sorted_members(instance.class.0, names@, members@)
                        },
                        None => sorted == members && *final(state) == *old(state),
                    }
                },
                (MembersProgress::Solve { superclasses, members }, _) => after == (
                MembersProgress::Done { superclasses, members }),
                _ => false,
            },
    {
        match (self, answer) {
            (MembersProgress::Superclasses, MembersAnswer::Superclasses(superclasses)) => {
                let (file, item) = instance.class;
                let checked = emit_instance_superclass_constraints(
                    state,
                    file,
                    item,
                    &superclasses,
                );
                let members: Vec<InstanceMember> = Vec::new();
                assert(members@ =~= Seq::empty());
                assert(superclasses_emitted(
                    *old(state),
                    *state,
                    instance.class,
                    superclasses@,
                    checked@,
                ));
                continue_members(instance, 0, checked, members)
            },
            (
                MembersProgress::Member { index, superclasses, members },
                MembersAnswer::Member(member),
            ) => {
                let mut members = members;
                if let Some(member) = member {
                    members.push(member);
                }
                continue_members(instance, index + 1, superclasses, members)
            },
            (
                MembersProgress::Failing { index, superclasses, members },
                MembersAnswer::Failing(failing),
            ) => {
                let count: usize = instance.constraints.len();
                if !failing && index + 1 < count {
                    MembersProgress::Failing { index: index + 1, superclasses, members }
                } else {
                    MembersProgress::Names { suppress: failing, superclasses, members }
                }
            },
            (
                MembersProgress::Names { suppress, superclasses, members },
                MembersAnswer::Names(names),
            ) => {
                match names {
                    Some(names) => {
                        let file = instance.class.0;
                        report_missing_members(state, file, &names, &members, suppress);
                        let members = sort_members(file, &names, members);
                        MembersProgress::Solve { superclasses, members }
                    },
                    None => MembersProgress::Solve { superclasses, members },
                }
            },
            (MembersProgress::Solve { superclasses, members }, _) => {
                MembersProgress::Done { superclasses, members }
            },
            (unanswered, _) => unanswered,
        }
    }

    /// The declaration of the instance, once its members are done.
    pub fn finish(self, head: DeriveHead, rigids: Vec<TypeId>, evidences: Vec<InstanceEvidence>) -> (
    declaration: Option<TermDeclaration>)
        ensures
            declaration == (match self {
                MembersProgress::Done { superclasses, members } => Some(
                    instance_of(
                        head,
                        rigids,
                        evidences,
                        superclasses,
                        InstanceImplementation::Members(members),
                    ),
                ),
                _ => None,
            }),
    {
        match self {
            MembersProgress::Done { superclasses, members } => Some(
                instance_declaration(
                    head,
                    rigids,
                    evidences,
                    superclasses,
                    InstanceImplementation::Members(members),
                ),
            ),
            _ => None,
        }
    }
}

} // verus!
