//! What the order of a module's checks guarantees.

use super::order::{
    term_group_actions, type_group_actions, type_groups_actions, TermGroup, TermItemAction,
    TypeGroup, TypeItemAction,
};
use super::type_items::{in_cycle, lemma_partition, partitioned};
use crate::indexing::items::{TermItemId, TypeItemId};
use vstd::prelude::*;

verus! {

/// Within a group of types, all signatures come before all equations, and what is
/// prepared comes in between. The first thing is to skip, and the last to finalise.
pub proof fn lemma_types_ordered(cycles: Seq<Vec<TypeItemId>>, group: TypeGroup)
    ensures
        ({
            let actions = type_group_actions(cycles, group);
            &&& actions.len() >= 2
            &&& actions[0] is Skip
            &&& actions.last() is Finalise
            &&& forall|i: int, j: int|
                #![trigger actions[i], actions[j]]
                0 <= i < actions.len() && 0 <= j < actions.len() && actions[i] is Signature && (
                actions[j] is Prepare || actions[j] is Equation) ==> i < j
            &&& forall|i: int, j: int|
                #![trigger actions[i], actions[j]]
                0 <= i < actions.len() && 0 <= j < actions.len() && actions[i] is Prepare
                    && actions[j] is Equation ==> i < j
            &&& (exists|i: int| 0 <= i < actions.len() && (#[trigger] actions[i]) is Prepare)
                <==> group.recursive
        }),
{
    let actions = type_group_actions(cycles, group);
    let items = partitioned(cycles, group.items@, false);
    let count = items.len() as int;
    let prepared = if group.recursive {
        1int
    } else {
        0int
    };
    assert(actions.len() == 1 + count + prepared + count + 1);
    assert forall|i: int| 0 <= i < actions.len() implies {
        &&& (#[trigger] actions[i]) is Skip <==> i == 0
        &&& actions[i] is Signature <==> 1 <= i < 1 + count
        &&& actions[i] is Prepare <==> 1 + count <= i < 1 + count + prepared
        &&& actions[i] is Equation <==> 1 + count + prepared <= i < 1 + count + prepared + count
        &&& actions[i] is Finalise <==> i == actions.len() - 1
    } by {}
    if group.recursive {
        assert(actions[1 + count] is Prepare);
    }
}

/// An item of a group that is in no circle gets its signature and its equation checked
/// and is finalised; one that is in a circle is skipped.
pub proof fn lemma_types_all_checked(
    cycles: Seq<Vec<TypeItemId>>,
    group: TypeGroup,
    item: TypeItemId,
)
    requires
        group.items@.contains(item),
    ensures
        ({
            let actions = type_group_actions(cycles, group);
            let circular = in_cycle(cycles, item);
            &&& actions.contains(TypeItemAction::Signature(item)) <==> !circular
            &&& actions.contains(TypeItemAction::Equation(item)) <==> !circular
            &&& actions.last() matches TypeItemAction::Finalise(items) && (items.contains(item)
                <==> !circular)
            &&& actions[0] matches TypeItemAction::Skip(skipped) && (skipped.contains(item)
                <==> circular)
        }),
{
    lemma_partition(cycles, group.items@, item);
    let actions = type_group_actions(cycles, group);
    let items = partitioned(cycles, group.items@, false);
    let count = items.len() as int;
    let prepared = if group.recursive {
        1int
    } else {
        0int
    };
    assert(actions[0] == TypeItemAction::Skip(partitioned(cycles, group.items@, true)));
    assert(actions.last() == TypeItemAction::Finalise(items));
    assert forall|i: int| 0 <= i < count implies #[trigger] actions[1 + i]
        == TypeItemAction::Signature(items[i]) by {}
    assert forall|i: int| 0 <= i < count implies #[trigger] actions[1 + count + prepared + i]
        == TypeItemAction::Equation(items[i]) by {}
    if items.contains(item) {
        let i = choose|i: int| 0 <= i < count && items[i] == item;
        assert(actions[1 + i] == TypeItemAction::Signature(item));
        assert(actions[1 + count + prepared + i] == TypeItemAction::Equation(item));
    }
    if actions.contains(TypeItemAction::Signature(item)) {
        let k = choose|k: int|
            0 <= k < actions.len() && actions[k] == TypeItemAction::Signature(item);
        assert(1 <= k < 1 + count);
        assert(items[k - 1] == item);
    }
    if actions.contains(TypeItemAction::Equation(item)) {
        let k = choose|k: int|
            0 <= k < actions.len() && actions[k] == TypeItemAction::Equation(item);
        assert(items[k - 1 - count - prepared] == item);
    }
}

/// Groups of types are done one after the other.
pub proof fn lemma_groups_in_order(
    cycles: Seq<Vec<TypeItemId>>,
    first: Seq<TypeGroup>,
    second: Seq<TypeGroup>,
)
    ensures
        type_groups_actions(cycles, first + second) == type_groups_actions(cycles, first)
            + type_groups_actions(cycles, second),
        forall|group: TypeGroup| #[trigger]
            type_groups_actions(cycles, seq![group]) == type_group_actions(cycles, group),
    decreases second.len(),
{
    if second.len() == 0 {
        assert(first + second =~= first);
        assert(type_groups_actions(cycles, first) + type_groups_actions(cycles, second)
            =~= type_groups_actions(cycles, first));
    } else {
        lemma_groups_in_order(cycles, first, second.drop_last());
        assert((first + second).drop_last() =~= first + second.drop_last());
        assert((first + second).last() == second.last());
        assert(type_groups_actions(cycles, first + second) =~= type_groups_actions(cycles, first)
            + type_groups_actions(cycles, second));
    }
    assert forall|group: TypeGroup| #[trigger]
        type_groups_actions(cycles, seq![group]) == type_group_actions(cycles, group) by {
        assert(seq![group].drop_last() =~= Seq::empty());
        assert(type_groups_actions(cycles, Seq::empty()) =~= Seq::<TypeItemAction>::empty());
        assert(type_groups_actions(cycles, seq![group]) =~= type_group_actions(cycles, group));
    }
}

/// Within a group of values, all signatures come before all equations, and what is
/// prepared comes in between; all items are finalised at the end.
pub proof fn lemma_terms_ordered(group: TermGroup)
    ensures
        ({
            let actions = term_group_actions(group);
            &&& actions.len() > 0
            &&& actions.last() == TermItemAction::Finalise(group.items@, group.recursive)
            &&& forall|i: int, j: int|
                #![trigger actions[i], actions[j]]
                0 <= i < actions.len() && 0 <= j < actions.len() && actions[i] is Signature && (
                actions[j] is Prepare || actions[j] is Equation) ==> i < j
            &&& forall|i: int, j: int|
                #![trigger actions[i], actions[j]]
                0 <= i < actions.len() && 0 <= j < actions.len() && actions[i] is Prepare
                    && actions[j] is Equation ==> i < j
            &&& (exists|i: int| 0 <= i < actions.len() && (#[trigger] actions[i]) is Prepare)
                <==> group.recursive
            &&& forall|item: TermItemId|
                group.items@.contains(item) <==> #[trigger] actions.contains(
                    TermItemAction::Signature(item),
                )
            &&& forall|item: TermItemId|
                group.items@.contains(item) <==> #[trigger] actions.contains(
                    TermItemAction::Equation(item),
                )
        }),
{
    let actions = term_group_actions(group);
    let items = group.items@;
    let count = items.len() as int;
    let prepared = if group.recursive {
        1int
    } else {
        0int
    };
    assert(actions.len() == count + prepared + count + 1);
    assert forall|i: int| 0 <= i < actions.len() implies {
        &&& (#[trigger] actions[i]) is Signature <==> 0 <= i < count
        &&& actions[i] is Prepare <==> count <= i < count + prepared
        &&& actions[i] is Equation <==> count + prepared <= i < count + prepared + count
        &&& actions[i] is Finalise <==> i == actions.len() - 1
    } by {}
    if group.recursive {
        assert(actions[count] is Prepare);
    }
    assert forall|i: int| 0 <= i < count implies #[trigger] actions[i]
        == TermItemAction::Signature(items[i]) by {}
    assert forall|i: int| 0 <= i < count implies #[trigger] actions[count + prepared + i]
        == TermItemAction::Equation(items[i]) by {}
    assert forall|item: TermItemId|
        group.items@.contains(item) <==> #[trigger] actions.contains(
            TermItemAction::Signature(item),
        ) by {
        if items.contains(item) {
            let i = choose|i: int| 0 <= i < count && items[i] == item;
            assert(actions[i] == TermItemAction::Signature(item));
        }
        if actions.contains(TermItemAction::Signature(item)) {
            let k = choose|k: int|
                0 <= k < actions.len() && actions[k] == TermItemAction::Signature(item);
            assert(items[k] == item);
        }
    }
    assert forall|item: TermItemId|
        group.items@.contains(item) <==> #[trigger] actions.contains(
            TermItemAction::Equation(item),
        ) by {
        if items.contains(item) {
            let i = choose|i: int| 0 <= i < count && items[i] == item;
            assert(actions[count + prepared + i] == TermItemAction::Equation(item));
        }
        if actions.contains(TermItemAction::Equation(item)) {
            let k = choose|k: int|
                0 <= k < actions.len() && actions[k] == TermItemAction::Equation(item);
            assert(items[k - count - prepared] == item);
        }
    }
}

} // verus!
