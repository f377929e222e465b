//! The steps of plans, taken one after the other.

use super::super::state::{with_tree, CheckState};
use super::super::terms::application::{allocate_expression, ElaboratedExpression};
use super::super::terms::forms::plainly_added;
use super::super::tree::{
    is_plain, is_unconditional, BinderId, BinderKind, BinderSource, CaseAlternative, ExpressionId,
    ExpressionKind, GuardedExpression, RecordExpressionUpdate, Tree, VariableResolution,
    WhereExpression,
};
use super::super::types::{
    extends, group_extends, lemma_extends_reflexive, FileId, Type, TypeId, TypeStore, Types,
};
use super::plan::{in_order, makes, Instruction, PlanId, PlanType, PlannedType, Sort, Step};
use crate::indexing::items::TermItemId;
use crate::indexing::source::DeriveId;
use vstd::prelude::*;

verus! {

/// What a step of a plan has made.
#[allow(inconsistent_fields)]
#[derive(Clone, Copy, Debug, PartialEq, Eq, Structural)]
pub enum Made {
    Expression { expression: ElaboratedExpression },
    Binder { binder: BinderId },
    Alternative { pattern: BinderId, body: ExpressionId },
}

/// What a step of a plan comes to.
#[allow(inconsistent_fields)]
#[derive(Clone, Copy, Debug, PartialEq, Eq)]
pub enum Performed {
    Made { made: Made },
    /// A reference to the term is to be made.
    Reference { resolution: (FileId, TermItemId) },
    /// The function is to be applied.
    Apply { function: ElaboratedExpression, argument: ElaboratedExpression },
    /// The expression is to be made one of another type.
    Subtype { expression: ElaboratedExpression, expected: TypeId },
    /// The step uses what no step has made.
    Missing,
}

/// The expression that a step has made.
pub open spec fn expression_of(made: Seq<Made>, id: PlanId) -> Option<ElaboratedExpression> {
    if id.raw < made.len() {
        match made[id.raw as int] {
            Made::Expression { expression } => Some(expression),
            _ => None,
        }
    } else {
        None
    }
}

/// The binder or pattern that a step has made.
pub open spec fn binder_of(made: Seq<Made>, id: PlanId) -> Option<BinderId> {
    if id.raw < made.len() {
        match made[id.raw as int] {
            Made::Binder { binder } => Some(binder),
            _ => None,
        }
    } else {
        None
    }
}

/// The alternative that a step has made.
pub open spec fn alternative_of(made: Seq<Made>, id: PlanId) -> Option<(BinderId, ExpressionId)> {
    if id.raw < made.len() {
        match made[id.raw as int] {
            Made::Alternative { pattern, body } => Some((pattern, body)),
            _ => None,
        }
    } else {
        None
    }
}

/// The binders that steps have made.
pub open spec fn are_binders(made: Seq<Made>, ids: Seq<PlanId>, binders: Seq<BinderId>) -> bool {
    &&& binders.len() == ids.len()
    &&& forall|i: int|
        0 <= i < ids.len() ==> binder_of(made, #[trigger] ids[i]) == Some(binders[i])
}

/// The updates with the expressions that steps have made.
pub open spec fn are_updates(
    made: Seq<Made>,
    updates: Seq<(String, PlanId)>,
    leaves: Seq<RecordExpressionUpdate>,
) -> bool {
    &&& leaves.len() == updates.len()
    &&& forall|i: int|
        0 <= i < updates.len() ==> {
            &&& expression_of(made, (#[trigger] updates[i]).1) is Some
            &&& leaves[i] == (RecordExpressionUpdate::Leaf {
                label: updates[i].0,
                expression: expression_of(made, updates[i].1)->0.expression,
            })
        }
}

/// The alternative has one pattern and no condition.
pub open spec fn is_alternative(
    alternative: CaseAlternative,
    parts: (BinderId, ExpressionId),
) -> bool {
    let (pattern, body) = parts;
    &&& alternative.binders@ == seq![pattern]
    &&& exists|where_expression: WhereExpression|
        #[trigger] is_plain(where_expression, body) && is_unconditional(
            alternative.guarded_expression,
            where_expression,
        )
}

/// The alternatives that steps have made.
pub open spec fn are_alternatives(
    made: Seq<Made>,
    ids: Seq<PlanId>,
    alternatives: Seq<CaseAlternative>,
) -> bool {
    &&& alternatives.len() == ids.len()
    &&& forall|i: int|
        0 <= i < ids.len() ==> {
            &&& alternative_of(made, #[trigger] ids[i]) is Some
            &&& is_alternative(alternatives[i], alternative_of(made, ids[i])->0)
        }
}

/// The type is the one that is planned.
pub open spec fn is_planned(store: TypeStore, planned: PlannedType, id: TypeId) -> bool {
    exists|result: TypeId|
        {
            &&& match planned.effect {
                Some(effect) => store.denotes(result, Type::Application(effect, planned.result)),
                None => result == planned.result,
            }
            &&& #[trigger] store.is_function(id, planned.arguments, result)
        }
}

/// The store with a planned type.
pub open spec fn with_planned(store: TypeStore, planned: PlannedType) -> TypeStore {
    match planned.effect {
        Some(effect) => {
            let result = Type::Application(effect, planned.result);
            let held = store.with_type(result);
            held.with_functions(planned.arguments, held.identity(result)).0
        },
        None => store.with_functions(planned.arguments, planned.result).0,
    }
}

/// The store with the types and the name that a step needs.
pub open spec fn performed_store(store: TypeStore, step: Step) -> TypeStore {
    match step {
        Step::Binder { name, .. } => store.with_text(name),
        Step::WildcardPattern { name, .. } => store.with_text(name),
        Step::ConstructorPattern { name, .. } => store.with_text(name),
        Step::Subtype { planned, .. } => with_planned(store, planned),
        Step::Lambda { planned, .. } => with_planned(store, planned),
        _ => store,
    }
}

/// A binder of the derived instance has been made.
pub open spec fn is_binder_made(
    before: CheckState,
    after: CheckState,
    store: TypeStore,
    derive: DeriveId,
    name: Seq<char>,
    type_id: TypeId,
    kind: BinderKind,
    performed: Performed,
) -> bool {
    &&& performed == (Performed::Made {
        made: Made::Binder { binder: before.checked.tree@.next_binder() },
    })
    &&& after == with_tree(before, after.checked.tree)
    &&& exists|text|
        #[trigger] store.denotes_text(text, name) && after.checked.tree@
            == before.checked.tree@.with_binder(
            BinderSource::Generated { derive, name: text },
            type_id,
            kind,
        )
}

/// An expression has been made.
pub open spec fn is_expression_made(
    before: CheckState,
    after: CheckState,
    type_id: TypeId,
    kind: ExpressionKind,
    performed: Performed,
) -> bool {
    &&& performed matches Performed::Made { made: Made::Expression { expression } }
    &&& plainly_added(before, after, type_id, kind, expression)
}

/// What the step uses has been made.
pub open spec fn is_provided(before: CheckState, made: Seq<Made>, step: Step) -> bool {
    match step {
        Step::Binder { .. } => true,
        Step::WildcardPattern { .. } => true,
        Step::Reference { .. } => true,
        Step::Variable { binder } => binder_of(made, binder) is Some
            && before.checked.tree@.binder_at(binder_of(made, binder)->0) is Some,
        Step::ConstructorPattern { arguments, .. } => forall|i: int|
            0 <= i < arguments.len() ==> binder_of(made, #[trigger] arguments[i]) is Some,
        Step::Apply { function, argument } => expression_of(made, function) is Some
            && expression_of(made, argument) is Some,
        Step::Subtype { expression, .. } => expression_of(made, expression) is Some,
        Step::Lambda { binders, body, .. } => expression_of(made, body) is Some && forall|i: int|
            0 <= i < binders.len() ==> binder_of(made, #[trigger] binders[i]) is Some,
        Step::RecordAccess { record, .. } => expression_of(made, record) is Some,
        Step::RecordUpdate { record, updates, .. } => expression_of(made, record) is Some
            && forall|i: int|
            0 <= i < updates.len() ==> expression_of(made, (#[trigger] updates[i]).1) is Some,
        Step::Alternative { pattern, body } => binder_of(made, pattern) is Some && expression_of(
            made,
            body,
        ) is Some,
        Step::Case { scrutinee, alternatives, .. } => expression_of(made, scrutinee) is Some
            && forall|i: int|
            0 <= i < alternatives.len() ==> alternative_of(made, #[trigger] alternatives[i])
                is Some,
    }
}

/// The step has been taken, or what is left to do for it is known.
pub open spec fn is_performed(
    before: CheckState,
    after: CheckState,
    store: TypeStore,
    derive: DeriveId,
    made: Seq<Made>,
    step: Step,
    performed: Performed,
) -> bool {
    match step {
        Step::Binder { name, type_id } => is_binder_made(
            before,
            after,
            store,
            derive,
            name,
            type_id,
            BinderKind::Variable,
            performed,
        ),
        Step::WildcardPattern { name, type_id } => is_binder_made(
            before,
            after,
            store,
            derive,
            name,
            type_id,
            BinderKind::Wildcard,
            performed,
        ),
        Step::ConstructorPattern { name, type_id, resolution, arguments } => exists|
            binders: Vec<BinderId>,
        |
            #[trigger] are_binders(made, arguments, binders@) && is_binder_made(
                before,
                after,
                store,
                derive,
                name,
                type_id,
                BinderKind::Constructor { resolution, arguments: binders },
                performed,
            ),
        Step::Variable { binder } => {
            let source = binder_of(made, binder)->0;
            is_expression_made(
                before,
                after,
                before.checked.tree@.binder_at(source)->0.type_id,
                ExpressionKind::Variable { resolution: VariableResolution::Generated(source) },
                performed,
            )
        },
        Step::Reference { resolution } => {
            &&& performed == (Performed::Reference { resolution })
            &&& after == before
        },
        Step::Apply { function, argument } => {
            &&& performed == (Performed::Apply {
                function: expression_of(made, function)->0,
                argument: expression_of(made, argument)->0,
            })
            &&& after == before
        },
        Step::Subtype { expression, planned } => {
            &&& performed matches Performed::Subtype { expression: actual, expected }
            &&& actual == expression_of(made, expression)->0
            &&& is_planned(store, planned, expected)
            &&& after == before
        },
        Step::Lambda { planned, binders, body } => exists|bound: Vec<BinderId>, type_id: TypeId|
            {
                &&& #[trigger] are_binders(made, binders, bound@)
                &&& #[trigger] is_planned(store, planned, type_id)
                &&& is_expression_made(
                    before,
                    after,
                    type_id,
                    ExpressionKind::Lambda {
                        binders: bound,
                        expression: expression_of(made, body)->0.expression,
                    },
                    performed,
                )
            },
        Step::RecordAccess { record, label, type_id } => exists|labels: Vec<String>|
            #[trigger] labels@ == seq![label] && is_expression_made(
                before,
                after,
                type_id,
                ExpressionKind::RecordAccess {
                    record: expression_of(made, record)->0.expression,
                    labels,
                },
                performed,
            ),
        Step::RecordUpdate { record, updates, type_id } => exists|
            leaves: Vec<RecordExpressionUpdate>,
        |
            #[trigger] are_updates(made, updates, leaves@) && is_expression_made(
                before,
                after,
                type_id,
                ExpressionKind::RecordUpdate {
                    record: expression_of(made, record)->0.expression,
                    updates: leaves,
                },
                performed,
            ),
        Step::Alternative { pattern, body } => {
            &&& performed == (Performed::Made {
                made: Made::Alternative {
                    pattern: binder_of(made, pattern)->0,
                    body: expression_of(made, body)->0.expression,
                },
            })
            &&& after == before
        },
        Step::Case { type_id, scrutinee, alternatives } => exists|
            scrutinees: Vec<ExpressionId>,
            all: Vec<CaseAlternative>,
        |
            {
                &&& #[trigger] scrutinees@ == seq![expression_of(made, scrutinee)->0.expression]
                &&& #[trigger] are_alternatives(made, alternatives, all@)
                &&& is_expression_made(
                    before,
                    after,
                    type_id,
                    ExpressionKind::Case { scrutinees, alternatives: all },
                    performed,
                )
            },
    }
}

fn find_expression(made: &Vec<Made>, id: PlanId) -> (expression: Option<ElaboratedExpression>)
    ensures
        expression == expression_of(made@, id),
{
    if id.raw < made.len() {
        match made[id.raw] {
            Made::Expression { expression } => Some(expression),
            _ => None,
        }
    } else {
        None
    }
}

fn find_binder(made: &Vec<Made>, id: PlanId) -> (binder: Option<BinderId>)
    ensures
        binder == binder_of(made@, id),
{
    if id.raw < made.len() {
        match made[id.raw] {
            Made::Binder { binder } => Some(binder),
            _ => None,
        }
    } else {
        None
    }
}

fn find_binders(made: &Vec<Made>, ids: &Vec<PlanId>) -> (binders: Option<Vec<BinderId>>)
    ensures
        match binders {
            Some(binders) => are_binders(made@, ids@, binders@),
            None => exists|i: int|
                0 <= i < ids@.len() && binder_of(made@, #[trigger] ids@[i]) is None,
        },
{
    let mut binders: Vec<BinderId> = Vec::new();
    let mut index: usize = 0;
    while index < ids.len()
        invariant
            index <= ids.len(),
            binders@.len() == index,
            forall|i: int|
                0 <= i < index ==> binder_of(made@, #[trigger] ids@[i]) == Some(binders@[i]),
        decreases ids.len() - index,
    {
        match find_binder(made, ids[index]) {
            Some(binder) => {
                binders.push(binder);
            },
            None => {
                assert(binder_of(made@, ids@[index as int]) is None);
                return None;
            },
        }
        index += 1;
    }
    Some(binders)
}

fn find_updates(made: &Vec<Made>, updates: &Vec<(String, PlanId)>) -> (leaves: Option<
    Vec<RecordExpressionUpdate>,
>)
    ensures
        match leaves {
            Some(leaves) => are_updates(made@, updates@, leaves@),
            None => exists|i: int|
                0 <= i < updates@.len() && expression_of(made@, (#[trigger] updates@[i]).1)
                    is None,
        },
{
    let mut leaves: Vec<RecordExpressionUpdate> = Vec::new();
    let mut index: usize = 0;
    while index < updates.len()
        invariant
            index <= updates.len(),
            leaves@.len() == index,
            forall|i: int|
                0 <= i < index ==> {
                    &&& expression_of(made@, (#[trigger] updates@[i]).1) is Some
                    &&& leaves@[i] == (RecordExpressionUpdate::Leaf {
                        label: updates@[i].0,
                        expression: expression_of(made@, updates@[i].1)->0.expression,
                    })
                },
        decreases updates.len() - index,
    {
        let update = &updates[index];
        match find_expression(made, update.1) {
            Some(expression) => {
                leaves.push(
                    RecordExpressionUpdate::Leaf {
                        label: update.0.clone(),
                        expression: expression.expression,
                    },
                );
            },
            None => {
                assert(expression_of(made@, updates@[index as int].1) is None);
                return None;
            },
        }
        index += 1;
    }
    Some(leaves)
}

fn find_alternatives(made: &Vec<Made>, ids: &Vec<PlanId>) -> (alternatives: Option<
    Vec<CaseAlternative>,
>)
    ensures
        match alternatives {
            Some(alternatives) => are_alternatives(made@, ids@, alternatives@),
            None => exists|i: int|
                0 <= i < ids@.len() && alternative_of(made@, #[trigger] ids@[i]) is None,
        },
{
    let mut alternatives: Vec<CaseAlternative> = Vec::new();
    let mut index: usize = 0;
    while index < ids.len()
        invariant
            index <= ids.len(),
            alternatives@.len() == index,
            forall|i: int|
                0 <= i < index ==> {
                    &&& alternative_of(made@, #[trigger] ids@[i]) is Some
                    &&& is_alternative(alternatives@[i], alternative_of(made@, ids@[i])->0)
                },
        decreases ids.len() - index,
    {
        let id = ids[index];
        let found = if id.raw < made.len() {
            match made[id.raw] {
                Made::Alternative { pattern, body } => Some((pattern, body)),
                _ => None,
            }
        } else {
            None
        };
        let Some((pattern, body)) = found else {
            assert(alternative_of(made@, ids@[index as int]) is None);
            return None;
        };
        let where_expression = WhereExpression::new(body);
        let guarded_expression = GuardedExpression::unconditional(where_expression);
        let mut binders: Vec<BinderId> = Vec::new();
        binders.push(pattern);
        assert(binders@ =~= seq![pattern]);
        let alternative = CaseAlternative { binders, guarded_expression };
        assert(is_alternative(alternative, (pattern, body)));
        alternatives.push(alternative);
        index += 1;
    }
    Some(alternatives)
}

fn planned_type(types: &mut Types, planned: &PlanType) -> (id: TypeId)
    requires
        old(types)@.wf(),
    ensures
        final(types)@.wf(),
        extends(old(types)@, final(types)@),
        final(types)@ == with_planned(old(types)@, planned@),
        is_planned(final(types)@, planned@, id),
{
    broadcast use group_extends;

    let result = match planned.effect {
        Some(effect) => types.intern_application(effect, planned.result),
        None => planned.result,
    };
    let ghost before = types@;
    let id = types.intern_function_list(&planned.arguments, result);
    assert(planned@.effect matches Some(effect) ==> before.denotes(
        result,
        Type::Application(effect, planned@.result),
    ));
    assert(types@.is_function(id, planned@.arguments, result));
    id
}

fn make_binder(
    state: &mut CheckState,
    types: &mut Types,
    derive: DeriveId,
    name: &str,
    type_id: TypeId,
    kind: BinderKind,
) -> (performed: Performed)
    requires
        old(types)@.wf(),
        old(state).checked.tree@.binders.len() <= u32::MAX,
    ensures
        final(types)@.wf(),
        extends(old(types)@, final(types)@),
        final(types)@ == old(types)@.with_text(name@),
        is_binder_made(
            *old(state),
            *final(state),
            final(types)@,
            derive,
            name@,
            type_id,
            kind,
            performed,
        ),
{
    let text = types.intern_smol_str(name);
    assert(types@.denotes_text(text, name@));
    let binder = state.allocate_derived_binder(derive, text, type_id, kind);
    Performed::Made { made: Made::Binder { binder } }
}

fn make_expression(state: &mut CheckState, type_id: TypeId, kind: ExpressionKind) -> (performed:
    Performed)
    requires
        old(state).checked.tree@.expressions.len() <= u32::MAX,
    ensures
        is_expression_made(*old(state), *final(state), type_id, kind, performed),
{
    let expression = allocate_expression(state, type_id, kind);
    Performed::Made { made: Made::Expression { expression } }
}

/// Takes a step of a plan, with what the steps before it have made. References,
/// applications and changes of type are left to be done.
pub fn perform(
    state: &mut CheckState,
    types: &mut Types,
    derive: DeriveId,
    made: &Vec<Made>,
    instruction: &Instruction,
) -> (performed: Performed)
    requires
        old(types)@.wf(),
        old(state).checked.tree@.binders.len() <= u32::MAX,
        old(state).checked.tree@.expressions.len() <= u32::MAX,
    ensures
        final(types)@.wf(),
        extends(old(types)@, final(types)@),
        if is_provided(*old(state), made@, instruction@) {
            is_performed(
                *old(state),
                *final(state),
                final(types)@,
                derive,
                made@,
                instruction@,
                performed,
            )
        } else {
            performed is Missing && *final(state) == *old(state)
        },
        final(types)@ == if performed is Missing {
            old(types)@
        } else {
            performed_store(old(types)@, instruction@)
        },
{
    proof {
        lemma_extends_reflexive(types@);
    }
    match instruction {
        Instruction::Binder { name, type_id } => make_binder(
            state,
            types,
            derive,
            name.as_str(),
            *type_id,
            BinderKind::Variable,
        ),
        Instruction::WildcardPattern { name, type_id } => make_binder(
            state,
            types,
            derive,
            name.as_str(),
            *type_id,
            BinderKind::Wildcard,
        ),
        Instruction::ConstructorPattern { name, type_id, resolution, arguments } => {
            let Some(binders) = find_binders(made, arguments) else {
                return Performed::Missing;
            };
            assert(are_binders(made@, arguments@, binders@));
            let kind = BinderKind::Constructor { resolution: *resolution, arguments: binders };
            make_binder(state, types, derive, name.as_str(), *type_id, kind)
        },
        Instruction::Variable { binder } => {
            let Some(source) = find_binder(made, *binder) else {
                return Performed::Missing;
            };
            let type_id = match state.checked.tree.find_binder(source) {
                Some(bound) => bound.type_id,
                None => {
                    return Performed::Missing;
                },
            };
            let resolution = VariableResolution::Generated(source);
            make_expression(state, type_id, ExpressionKind::Variable { resolution })
        },
        Instruction::Reference { resolution } => Performed::Reference { resolution: *resolution },
        Instruction::Apply { function, argument } => {
            match (find_expression(made, *function), find_expression(made, *argument)) {
                (Some(function), Some(argument)) => Performed::Apply { function, argument },
                _ => Performed::Missing,
            }
        },
        Instruction::Subtype { expression, planned } => {
            let Some(expression) = find_expression(made, *expression) else {
                return Performed::Missing;
            };
            let expected = planned_type(types, planned);
            Performed::Subtype { expression, expected }
        },
        Instruction::Lambda { planned, binders, body } => {
            let Some(body) = find_expression(made, *body) else {
                return Performed::Missing;
            };
            let Some(bound) = find_binders(made, binders) else {
                return Performed::Missing;
            };
            let type_id = planned_type(types, planned);
            assert(are_binders(made@, binders@, bound@));
            let kind = ExpressionKind::Lambda { binders: bound, expression: body.expression };
            make_expression(state, type_id, kind)
        },
        Instruction::RecordAccess { record, label, type_id } => {
            let Some(record) = find_expression(made, *record) else {
                return Performed::Missing;
            };
            let mut labels: Vec<String> = Vec::new();
            labels.push(label.clone());
            assert(labels@ == seq![*label]);
            let kind = ExpressionKind::RecordAccess { record: record.expression, labels };
            make_expression(state, *type_id, kind)
        },
        Instruction::RecordUpdate { record, updates, type_id } => {
            let Some(record) = find_expression(made, *record) else {
                return Performed::Missing;
            };
            let Some(leaves) = find_updates(made, updates) else {
                return Performed::Missing;
            };
            assert(are_updates(made@, updates@, leaves@));
            let kind = ExpressionKind::RecordUpdate {
                record: record.expression,
                updates: leaves,
            };
            make_expression(state, *type_id, kind)
        },
        Instruction::Alternative { pattern, body } => {
            match (find_binder(made, *pattern), find_expression(made, *body)) {
                (Some(pattern), Some(body)) => Performed::Made {
                    made: Made::Alternative { pattern, body: body.expression },
                },
                _ => Performed::Missing,
            }
        },
        Instruction::Case { type_id, scrutinee, alternatives } => {
            let Some(scrutinee) = find_expression(made, *scrutinee) else {
                return Performed::Missing;
            };
            let Some(all) = find_alternatives(made, alternatives) else {
                return Performed::Missing;
            };
            let mut scrutinees: Vec<ExpressionId> = Vec::new();
            scrutinees.push(scrutinee.expression);
            assert(scrutinees@ == seq![scrutinee.expression]);
            assert(are_alternatives(made@, alternatives@, all@));
            let kind = ExpressionKind::Case { scrutinees, alternatives: all };
            make_expression(state, *type_id, kind)
        },
    }
}

/// What a step has made is of the sort that the step makes, and a binder is one of
/// the tree.
pub open spec fn is_of_sort(tree: Tree, made: Made, sort: Sort) -> bool {
    match made {
        Made::Expression { .. } => sort is Expression,
        Made::Binder { binder } => sort is Binder && tree.binder_at(binder) is Some,
        Made::Alternative { .. } => sort is Alternative,
    }
}

/// The first steps of a plan have been taken.
pub open spec fn is_begun(tree: Tree, plan: Seq<Step>, made: Seq<Made>) -> bool {
    &&& made.len() <= plan.len()
    &&& forall|i: int|
        0 <= i < made.len() ==> is_of_sort(tree, #[trigger] made[i], plan[i].sort())
}

proof fn lemma_made(tree: Tree, plan: Seq<Step>, made: Seq<Made>, id: PlanId, sort: Sort)
    requires
        is_begun(tree, plan, made),
        makes(plan.take(made.len() as int), id, sort),
    ensures
        sort is Expression ==> expression_of(made, id) is Some,
        sort is Binder ==> binder_of(made, id) is Some && tree.binder_at(binder_of(made, id)->0)
            is Some,
        sort is Alternative ==> alternative_of(made, id) is Some,
{
    assert(is_of_sort(tree, made[id.raw as int], plan[id.raw as int].sort()));
}

/// A plan that is in order can be carried out: what a step uses has been made once the
/// steps before it have been taken.
pub proof fn lemma_steps_are_provided(state: CheckState, plan: Seq<Step>, made: Seq<Made>)
    requires
        in_order(plan),
        is_begun(state.checked.tree@, plan, made),
        made.len() < plan.len(),
    ensures
        is_provided(state, made, plan[made.len() as int]),
{
    let tree = state.checked.tree@;
    let step = plan[made.len() as int];
    let first = plan.take(made.len() as int);
    assert(step.fits(first));
    match step {
        Step::Variable { binder } => {
            lemma_made(tree, plan, made, binder, Sort::Binder);
        },
        Step::Apply { function, argument } => {
            lemma_made(tree, plan, made, function, Sort::Expression);
            lemma_made(tree, plan, made, argument, Sort::Expression);
        },
        Step::Subtype { expression, .. } => {
            lemma_made(tree, plan, made, expression, Sort::Expression);
        },
        Step::Lambda { binders, body, .. } => {
            lemma_made(tree, plan, made, body, Sort::Expression);
            assert forall|i: int| 0 <= i < binders.len() implies binder_of(
                made,
                #[trigger] binders[i],
            ) is Some by {
                lemma_made(tree, plan, made, binders[i], Sort::Binder);
            }
        },
        Step::RecordAccess { record, .. } => {
            lemma_made(tree, plan, made, record, Sort::Expression);
        },
        Step::RecordUpdate { record, updates, .. } => {
            lemma_made(tree, plan, made, record, Sort::Expression);
            assert forall|i: int| 0 <= i < updates.len() implies expression_of(
                made,
                (#[trigger] updates[i]).1,
            ) is Some by {
                lemma_made(tree, plan, made, updates[i].1, Sort::Expression);
            }
        },
        Step::ConstructorPattern { arguments, .. } => {
            assert forall|i: int| 0 <= i < arguments.len() implies binder_of(
                made,
                #[trigger] arguments[i],
            ) is Some by {
                lemma_made(tree, plan, made, arguments[i], Sort::Binder);
            }
        },
        Step::Alternative { pattern, body } => {
            lemma_made(tree, plan, made, pattern, Sort::Binder);
            lemma_made(tree, plan, made, body, Sort::Expression);
        },
        Step::Case { scrutinee, alternatives, .. } => {
            lemma_made(tree, plan, made, scrutinee, Sort::Expression);
            assert forall|i: int| 0 <= i < alternatives.len() implies alternative_of(
                made,
                #[trigger] alternatives[i],
            ) is Some by {
                lemma_made(tree, plan, made, alternatives[i], Sort::Alternative);
            }
        },
        _ => {},
    }
}

/// A step that has been taken leaves the plan begun with one step more.
pub proof fn lemma_step_taken(
    before: CheckState,
    after: CheckState,
    store: TypeStore,
    derive: DeriveId,
    plan: Seq<Step>,
    made: Seq<Made>,
    next: Made,
)
    requires
        before.checked.tree@.binders.len() <= u32::MAX,
        is_begun(before.checked.tree@, plan, made),
        made.len() < plan.len(),
        is_performed(
            before,
            after,
            store,
            derive,
            made,
            plan[made.len() as int],
            Performed::Made { made: next },
        ),
    ensures
        is_begun(after.checked.tree@, plan, made.push(next)),
{
    let later = made.push(next);
    assert forall|i: int| 0 <= i < later.len() implies is_of_sort(
        after.checked.tree@,
        #[trigger] later[i],
        plan[i].sort(),
    ) by {
        if i < made.len() {
            assert(is_of_sort(before.checked.tree@, made[i], plan[i].sort()));
        }
    }
}

} // verus!
