//! The order in which the groups of a module's items are checked.

use super::type_items::{partition_type_items, partitioned};
use crate::collections::copy_all;
use crate::indexing::items::{TermItemId, TypeItemId};
use vstd::prelude::*;

verus! {

// Types

/// Types that depend on each other.
#[derive(Debug)]
pub struct TypeGroup {
    pub items: Vec<TypeItemId>,
    pub recursive: bool,
}

/// What is to be done next with the types of a module.
#[allow(inconsistent_fields)]
#[derive(Debug, PartialEq, Eq)]
pub enum TypeItemStep {
    /// The items are in a circle: their kinds are unknown.
    Skip { items: Vec<TypeItemId> },
    Signature { item: TypeItemId },
    /// The items refer to each other: those without a kind get one that is still to
    /// be found.
    Prepare { items: Vec<TypeItemId> },
    Equation { item: TypeItemId },
    /// The kinds of the items are generalised, and the items recorded.
    Finalise { items: Vec<TypeItemId> },
}

/// The model of [`TypeItemStep`].
pub enum TypeItemAction {
    Skip(Seq<TypeItemId>),
    Signature(TypeItemId),
    Prepare(Seq<TypeItemId>),
    Equation(TypeItemId),
    Finalise(Seq<TypeItemId>),
}

impl View for TypeItemStep {
    type V = TypeItemAction;

    open spec fn view(&self) -> TypeItemAction {
        match *self {
            TypeItemStep::Skip { items } => TypeItemAction::Skip(items@),
            TypeItemStep::Signature { item } => TypeItemAction::Signature(item),
            TypeItemStep::Prepare { items } => TypeItemAction::Prepare(items@),
            TypeItemStep::Equation { item } => TypeItemAction::Equation(item),
            TypeItemStep::Finalise { items } => TypeItemAction::Finalise(items@),
        }
    }
}

/// The models of a list of steps.
pub open spec fn type_actions(steps: Seq<TypeItemStep>) -> Seq<TypeItemAction> {
    steps.map_values(|step: TypeItemStep| step@)
}

/// What is done with one group: the items in a circle are skipped; of the others,
/// all signatures come before all equations.
pub open spec fn type_group_actions(cycles: Seq<Vec<TypeItemId>>, group: TypeGroup) -> Seq<
    TypeItemAction,
> {
    let items = partitioned(cycles, group.items@, false);
    let skipped = partitioned(cycles, group.items@, true);
    let prepared = if group.recursive {
        seq![TypeItemAction::Prepare(items)]
    } else {
        Seq::empty()
    };
    seq![TypeItemAction::Skip(skipped)] + items.map_values(
        |item: TypeItemId| TypeItemAction::Signature(item),
    ) + prepared + items.map_values(|item: TypeItemId| TypeItemAction::Equation(item))
        + seq![TypeItemAction::Finalise(items)]
}

/// What is done with all groups, one after the other.
pub open spec fn type_groups_actions(
    cycles: Seq<Vec<TypeItemId>>,
    groups: Seq<TypeGroup>,
) -> Seq<TypeItemAction>
    decreases groups.len(),
{
    if groups.len() == 0 {
        Seq::empty()
    } else {
        type_groups_actions(cycles, groups.drop_last()) + type_group_actions(cycles, groups.last())
    }
}

fn push_type_step(steps: &mut Vec<TypeItemStep>, step: TypeItemStep)
    ensures
        type_actions(final(steps)@) == type_actions(old(steps)@).push(step@),
{
    let ghost model = step@;
    steps.push(step);
    assert(type_actions(steps@) =~= type_actions(old(steps)@).push(model));
}

fn push_type_signatures(steps: &mut Vec<TypeItemStep>, items: &Vec<TypeItemId>)
    ensures
        type_actions(final(steps)@) == type_actions(old(steps)@) + items@.map_values(
            |item: TypeItemId| TypeItemAction::Signature(item),
        ),
{
    let ghost all = items@.map_values(|item: TypeItemId| TypeItemAction::Signature(item));
    let mut index: usize = 0;
    assert(type_actions(steps@) =~= type_actions(old(steps)@) + all.take(0));
    while index < items.len()
        invariant
            index <= items.len(),
            all == items@.map_values(|item: TypeItemId| TypeItemAction::Signature(item)),
            type_actions(steps@) == type_actions(old(steps)@) + all.take(index as int),
        decreases items.len() - index,
    {
        push_type_step(steps, TypeItemStep::Signature { item: items[index] });
        assert(all.take(index + 1) =~= all.take(index as int).push(all[index as int]));
        assert(type_actions(steps@) =~= type_actions(old(steps)@) + all.take(index + 1));
        index += 1;
    }
    assert(all.take(index as int) =~= all);
}

fn push_type_equations(steps: &mut Vec<TypeItemStep>, items: &Vec<TypeItemId>)
    ensures
        type_actions(final(steps)@) == type_actions(old(steps)@) + items@.map_values(
            |item: TypeItemId| TypeItemAction::Equation(item),
        ),
{
    let ghost all = items@.map_values(|item: TypeItemId| TypeItemAction::Equation(item));
    let mut index: usize = 0;
    assert(type_actions(steps@) =~= type_actions(old(steps)@) + all.take(0));
    while index < items.len()
        invariant
            index <= items.len(),
            all == items@.map_values(|item: TypeItemId| TypeItemAction::Equation(item)),
            type_actions(steps@) == type_actions(old(steps)@) + all.take(index as int),
        decreases items.len() - index,
    {
        push_type_step(steps, TypeItemStep::Equation { item: items[index] });
        assert(all.take(index + 1) =~= all.take(index as int).push(all[index as int]));
        assert(type_actions(steps@) =~= type_actions(old(steps)@) + all.take(index + 1));
        index += 1;
    }
    assert(all.take(index as int) =~= all);
}

/// What is to be done with all groups of types, in order.
pub fn type_item_steps(cycles: &Vec<Vec<TypeItemId>>, groups: &Vec<TypeGroup>) -> (steps: Vec<
    TypeItemStep,
>)
    ensures
        type_actions(steps@) == type_groups_actions(cycles@, groups@),
{
    let mut steps: Vec<TypeItemStep> = Vec::new();
    let mut index: usize = 0;
    assert(groups@.take(0) =~= Seq::empty());
    assert(type_actions(steps@) =~= Seq::empty());
    while index < groups.len()
        invariant
            index <= groups.len(),
            type_actions(steps@) == type_groups_actions(cycles@, groups@.take(index as int)),
        decreases groups.len() - index,
    {
        let group = &groups[index];
        let ghost before = type_actions(steps@);
        let (items, skipped) = partition_type_items(cycles, &group.items);
        push_type_step(&mut steps, TypeItemStep::Skip { items: skipped });
        push_type_signatures(&mut steps, &items);
        if group.recursive {
            push_type_step(&mut steps, TypeItemStep::Prepare { items: copy_all(&items) });
        }
        push_type_equations(&mut steps, &items);
        push_type_step(&mut steps, TypeItemStep::Finalise { items });
        assert(groups@.take(index + 1).drop_last() =~= groups@.take(index as int));
        assert(type_actions(steps@) =~= before + type_group_actions(cycles@, *group));
        index += 1;
    }
    assert(groups@.take(index as int) =~= groups@);
    steps
}

// Terms

/// Values and operators that depend on each other.
#[derive(Debug)]
pub struct TermGroup {
    pub items: Vec<TermItemId>,
    pub recursive: bool,
}

/// What is to be done next with the values of a module.
#[allow(inconsistent_fields)]
#[derive(Debug, PartialEq, Eq)]
pub enum TermItemStep {
    Signature { item: TermItemId },
    /// The items refer to each other: those without a type get one that is still to
    /// be found.
    Prepare { items: Vec<TermItemId> },
    Equation { item: TermItemId },
    /// The types of the items are generalised, and the items recorded.
    Finalise { items: Vec<TermItemId>, recursive: bool },
}

/// The model of [`TermItemStep`].
pub enum TermItemAction {
    Signature(TermItemId),
    Prepare(Seq<TermItemId>),
    Equation(TermItemId),
    Finalise(Seq<TermItemId>, bool),
}

impl View for TermItemStep {
    type V = TermItemAction;

    open spec fn view(&self) -> TermItemAction {
        match *self {
            TermItemStep::Signature { item } => TermItemAction::Signature(item),
            TermItemStep::Prepare { items } => TermItemAction::Prepare(items@),
            TermItemStep::Equation { item } => TermItemAction::Equation(item),
            TermItemStep::Finalise { items, recursive } => TermItemAction::Finalise(
                items@,
                recursive,
            ),
        }
    }
}

/// The models of a list of steps.
pub open spec fn term_actions(steps: Seq<TermItemStep>) -> Seq<TermItemAction> {
    steps.map_values(|step: TermItemStep| step@)
}

/// What is done with one group: all signatures come before all equations.
pub open spec fn term_group_actions(group: TermGroup) -> Seq<TermItemAction> {
    let items = group.items@;
    let prepared = if group.recursive {
        seq![TermItemAction::Prepare(items)]
    } else {
        Seq::empty()
    };
    items.map_values(|item: TermItemId| TermItemAction::Signature(item)) + prepared
        + items.map_values(|item: TermItemId| TermItemAction::Equation(item))
        + seq![TermItemAction::Finalise(items, group.recursive)]
}

fn push_term_step(steps: &mut Vec<TermItemStep>, step: TermItemStep)
    ensures
        term_actions(final(steps)@) == term_actions(old(steps)@).push(step@),
{
    let ghost model = step@;
    steps.push(step);
    assert(term_actions(steps@) =~= term_actions(old(steps)@).push(model));
}

/// What is to be done with a group of values, in order.
pub fn term_group_steps(group: &TermGroup) -> (steps: Vec<TermItemStep>)
    ensures
        term_actions(steps@) == term_group_actions(*group),
{
    let items = &group.items;
    let ghost signatures = items@.map_values(|item: TermItemId| TermItemAction::Signature(item));
    let ghost equations = items@.map_values(|item: TermItemId| TermItemAction::Equation(item));
    let mut steps: Vec<TermItemStep> = Vec::new();
    let mut index: usize = 0;
    assert(term_actions(steps@) =~= signatures.take(0));
    while index < items.len()
        invariant
            index <= items.len(),
            signatures == items@.map_values(|item: TermItemId| TermItemAction::Signature(item)),
            term_actions(steps@) == signatures.take(index as int),
        decreases items.len() - index,
    {
        push_term_step(&mut steps, TermItemStep::Signature { item: items[index] });
        assert(term_actions(steps@) =~= signatures.take(index + 1));
        index += 1;
    }
    assert(signatures.take(index as int) =~= signatures);
    if group.recursive {
        push_term_step(&mut steps, TermItemStep::Prepare { items: copy_all(items) });
    }
    let ghost before = term_actions(steps@);
    index = 0;
    assert(term_actions(steps@) =~= before + equations.take(0));
    while index < items.len()
        invariant
            index <= items.len(),
            equations == items@.map_values(|item: TermItemId| TermItemAction::Equation(item)),
            term_actions(steps@) == before + equations.take(index as int),
        decreases items.len() - index,
    {
        push_term_step(&mut steps, TermItemStep::Equation { item: items[index] });
        assert(term_actions(steps@) =~= before + equations.take(index + 1));
        index += 1;
    }
    assert(equations.take(index as int) =~= equations);
    let finalise = TermItemStep::Finalise { items: copy_all(items), recursive: group.recursive };
    push_term_step(&mut steps, finalise);
    assert(term_actions(steps@) =~= term_group_actions(*group));
    steps
}

} // verus!
