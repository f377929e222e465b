//! What `do` and `ado` blocks stand for.

use super::super::lowering::{SourceExpressionId, TermVariableResolution};
use super::super::state::CheckState;
use super::super::tree::{BinderId, ExpressionId, ExpressionKind, Tree};
use super::super::types::{Prim, TypeId, TypeStore};
use super::application::{applied_to, implicitly_applied, ElaboratedExpression, ImplicitApplication};
use super::blocks::{functions_found, AdoBlock, AdoBlockStep, DoBlock, DoBlockStep, DoFunctions};
use super::form_ado::{
    action_binders, action_types, is_materialized, is_pipeline, AdoStep, CheckedAdoApplication,
};
use super::form_do::{
    action_count, block_end, block_result, is_built, is_lambda, is_step,
    lemma_actions_have_functions, requested, CheckedDoStep, DesugaredFunction, DoRequest, DoStep,
};
use vstd::prelude::*;

verus! {

// The statements of a `do` block

/// How many of the first statements are actions.
pub open spec fn actions_among(steps: Seq<DoStep>, count: nat) -> nat
    decreases count,
{
    if count == 0 || count > steps.len() {
        0
    } else {
        actions_among(steps, (count - 1) as nat) + match steps[count - 1] {
            DoStep::Let { .. } => 0nat,
            _ => 1nat,
        }
    }
}

proof fn lemma_actions_among(steps: Seq<DoStep>, count: nat)
    requires
        count <= steps.len(),
    ensures
        actions_among(steps, count) == action_count(steps.take(count as int)),
    decreases count,
{
    if count > 0 {
        lemma_actions_among(steps, (count - 1) as nat);
        assert(steps.take(count as int).drop_last() =~= steps.take(count - 1));
    }
}

/// The step applies the function to the action of a statement, between the types of
/// what the statement and what the next one yield.
pub open spec fn applies(
    block: DoBlock,
    step: DoBlockStep,
    function: DesugaredFunction,
    expression: SourceExpressionId,
) -> bool {
    let place = actions_among(block.steps@, block.index as nat) as int;
    &&& step matches DoBlockStep::Action { action, .. }
    &&& action.function == function
    &&& action.expression == expression
    &&& place + 1 < block.plan.continuations@.len()
    &&& action.now == block.plan.continuations@[place]
    &&& action.next == block.plan.continuations@[place + 1]
}

/// A statement with a binder applies what was found for `bind`, and one without a binder
/// what was found for `discard`, whatever other statements the block has. Only the last
/// statement applies nothing.
pub proof fn lemma_statement_applies(
    block: DoBlock,
    before: CheckState,
    after: CheckState,
    store: TypeStore,
    prim: Prim,
    request: DoRequest,
    step: DoBlockStep,
)
    requires
        block.wf(),
        block.index < block.steps@.len(),
        requested(
            before,
            after,
            store,
            prim,
            block.steps@[block.index as int],
            block.count as nat,
            block.plan.continuations@,
            request,
        ),
        block.answers(request, step),
    ensures
        match block.steps@[block.index as int] {
            DoStep::Let { statement } => step matches DoBlockStep::Let { statement: own, .. }
                && own == statement,
            _ if block.index == block.steps@.len() - 1 => step is Passed,
            DoStep::Bind { binder, binder_type, expression: Some(expression), .. } => {
                &&& block.functions.bind is Some
                &&& applies(block, step, block.functions.bind->0, expression)
                &&& step->Action_binder == binder
                &&& step->Action_action.binder_type == binder_type
            },
            DoStep::Discard { expression: Some(expression), .. } => {
                &&& block.functions.discard is Some
                &&& applies(block, step, block.functions.discard->0, expression)
                &&& step->Action_binder == before.checked.tree@.next_binder()
            },
            _ => step is Passed,
        },
{
    let steps = block.steps@;
    let index = block.index as int;
    lemma_actions_among(steps, index as nat);
    if steps[index].action() {
        lemma_actions_have_functions(steps, index);
    }
}

/// The function that a name was resolved to is the one that the block applies.
pub proof fn lemma_resolved_functions(
    before: (CheckState, TypeStore),
    after: (CheckState, TypeStore),
    prim: Prim,
    bind: Option<(TermVariableResolution, TypeId)>,
    discard: Option<(TermVariableResolution, TypeId)>,
    steps: Seq<DoStep>,
    functions: DoFunctions,
    index: int,
)
    requires
        functions_found(before, after, prim, (bind, discard), steps, functions),
        0 <= index < steps.len(),
    ensures
        steps[index] is Bind ==> (bind matches Some((resolution, type_id)) ==> functions.bind
            == Some(DesugaredFunction { resolution: Some(resolution), type_id })),
        steps[index] is Bind ==> functions.bind is Some && (bind is None
            ==> functions.bind->0.resolution is None),
        steps[index] is Discard && index < steps.len() - 1 ==> (discard matches Some(
            (resolution, type_id),
        ) ==> functions.discard == Some(
            DesugaredFunction { resolution: Some(resolution), type_id },
        )),
        steps[index] is Discard && index < steps.len() - 1 ==> functions.discard is Some && (
        discard is None ==> functions.discard->0.resolution is None),
{
    if steps[index].action() {
        lemma_actions_have_functions(steps, index);
    }
}

/// What a block yields is the expression of its last statement.
pub proof fn lemma_block_result(steps: Seq<DoStep>)
    requires
        steps.len() > 0,
    ensures
        block_result(block_end(steps)) == (match steps.last() {
            DoStep::Bind { expression, .. } => expression,
            DoStep::Discard { expression, .. } => expression,
            DoStep::Let { .. } => None,
        }),
{
}

// The expression of a `do` block

/// What an expression applies to evidence.
pub open spec fn without_evidence(tree: Tree, id: ExpressionId, fuel: nat) -> ExpressionId
    decreases fuel,
{
    if fuel == 0 || id.raw >= tree.expressions.len() {
        id
    } else {
        match tree.expressions[id.raw as int].kind {
            ExpressionKind::EvidenceApplication { function, .. } => without_evidence(
                tree,
                function,
                (fuel - 1) as nat,
            ),
            _ => id,
        }
    }
}

/// The binders that an expression binds on the way along the last arguments of
/// applications, the bodies of functions and of bindings, as many of them as given.
pub open spec fn bound_along(tree: Tree, id: ExpressionId, count: nat) -> Seq<BinderId>
    decreases count,
{
    if count == 0 || id.raw >= tree.expressions.len() {
        Seq::empty()
    } else {
        match tree.expressions[id.raw as int].kind {
            ExpressionKind::TermApplication { argument, .. } => if argument.raw
                >= tree.expressions.len() {
                Seq::empty()
            } else {
                match tree.expressions[argument.raw as int].kind {
                    ExpressionKind::Lambda { binders, expression } => binders@ + bound_along(
                        tree,
                        expression,
                        (count - 1) as nat,
                    ),
                    _ => Seq::empty(),
                }
            },
            ExpressionKind::Let { expression, .. } => bound_along(
                tree,
                expression,
                (count - 1) as nat,
            ),
            _ => Seq::empty(),
        }
    }
}

/// Where that way ends.
pub open spec fn end_along(tree: Tree, id: ExpressionId, count: nat) -> ExpressionId
    decreases count,
{
    if count == 0 || id.raw >= tree.expressions.len() {
        id
    } else {
        match tree.expressions[id.raw as int].kind {
            ExpressionKind::TermApplication { argument, .. } => if argument.raw
                >= tree.expressions.len() {
                id
            } else {
                match tree.expressions[argument.raw as int].kind {
                    ExpressionKind::Lambda { expression, .. } => end_along(
                        tree,
                        expression,
                        (count - 1) as nat,
                    ),
                    _ => id,
                }
            },
            ExpressionKind::Let { expression, .. } => end_along(
                tree,
                expression,
                (count - 1) as nat,
            ),
            _ => id,
        }
    }
}

/// The binders of checked statements, from the first on.
pub open spec fn statement_binders(steps: Seq<CheckedDoStep>) -> Seq<BinderId>
    decreases steps.len(),
{
    if steps.len() == 0 {
        Seq::empty()
    } else {
        let own = match steps[0] {
            CheckedDoStep::Application { binder, .. } => seq![binder],
            CheckedDoStep::MissingApplication { binder, .. } => seq![binder],
            CheckedDoStep::Let { .. } => Seq::empty(),
        };
        own + statement_binders(steps.skip(1))
    }
}

/// The expression of a block binds what its statements bind, in their order, and what
/// is innermost is the block's last expression.
pub proof fn lemma_statements_in_order(
    tree: Tree,
    store: TypeStore,
    steps: Seq<CheckedDoStep>,
    inner: ElaboratedExpression,
    outer: ExpressionId,
)
    requires
        is_built(tree, store, steps, inner, outer),
    ensures
        bound_along(tree, outer, steps.len()) == statement_binders(steps),
        end_along(tree, outer, steps.len()) == inner.expression,
    decreases steps.len(),
{
    if steps.len() > 0 {
        let inner_type = super::form_do::built_type(steps.skip(1), inner.type_id);
        let rest = choose|rest: ExpressionId|
            is_built(tree, store, steps.skip(1), inner, rest) && #[trigger] is_step(
                tree,
                store,
                steps[0],
                rest,
                inner_type,
                outer,
            );
        lemma_statements_in_order(tree, store, steps.skip(1), inner, rest);
        assert(bound_along(tree, outer, steps.len()) =~= statement_binders(steps));
    } else {
        assert(bound_along(tree, outer, 0) =~= statement_binders(steps));
    }
}

/// What stands below evidence is found again.
pub proof fn lemma_without_evidence(
    tree: Tree,
    inner: ExpressionId,
    implicit: Seq<ImplicitApplication>,
    outer: ExpressionId,
)
    requires
        implicitly_applied(tree, inner, implicit, outer),
        inner.raw < tree.expressions.len(),
        !(tree.expressions[inner.raw as int].kind is EvidenceApplication),
    ensures
        without_evidence(tree, outer, implicit.len()) == inner,
    decreases implicit.len(),
{
    if implicit.len() > 0 {
        match implicit.last() {
            ImplicitApplication::Type { .. } => {
                lemma_without_evidence(tree, inner, implicit.drop_last(), outer);
                lemma_more_fuel(tree, outer, inner, (implicit.len() - 1) as nat);
            },
            ImplicitApplication::Evidence { .. } => {
                if let ExpressionKind::EvidenceApplication { function, .. } =
                    tree.expressions[outer.raw as int].kind {
                    lemma_without_evidence(tree, inner, implicit.drop_last(), function);
                }
            },
        }
    }
}

proof fn lemma_more_fuel(tree: Tree, outer: ExpressionId, inner: ExpressionId, fuel: nat)
    requires
        without_evidence(tree, outer, fuel) == inner,
        inner.raw < tree.expressions.len(),
        !(tree.expressions[inner.raw as int].kind is EvidenceApplication),
    ensures
        without_evidence(tree, outer, fuel + 1) == inner,
    decreases fuel,
{
    if fuel > 0 && outer.raw < tree.expressions.len() {
        if let ExpressionKind::EvidenceApplication { function, .. } =
            tree.expressions[outer.raw as int].kind {
            lemma_more_fuel(tree, function, inner, (fuel - 1) as nat);
        }
    }
}

/// The expression of a block that begins with an action is the application of what the
/// action was given to, but for evidence, to a function of the statement's binder.
pub proof fn lemma_first_statement(
    tree: Tree,
    store: TypeStore,
    steps: Seq<CheckedDoStep>,
    inner: ElaboratedExpression,
    outer: ExpressionId,
)
    requires
        is_built(tree, store, steps, inner, outer),
        steps.len() > 0,
        steps[0] matches CheckedDoStep::Application { application, .. } && {
            let function = application.function.expression;
            &&& function.raw < tree.expressions.len()
            &&& !(tree.expressions[function.raw as int].kind is EvidenceApplication)
        },
    ensures
        ({
            let application = steps[0]->Application_application;
            &&& outer.raw < tree.expressions.len()
            &&& tree.expressions[outer.raw as int].type_id == application.result
            &&& tree.expressions[outer.raw as int].kind matches ExpressionKind::TermApplication {
                function,
                argument,
            }
            &&& without_evidence(tree, function, application.implicit@.len())
                == application.function.expression
            &&& argument.raw < tree.expressions.len()
            &&& tree.expressions[argument.raw as int].type_id == application.lambda_type
            &&& tree.expressions[argument.raw as int].kind matches ExpressionKind::Lambda {
                binders,
                ..
            }
            &&& binders@ == seq![steps[0]->Application_binder]
        }),
{
    let application = steps[0]->Application_application;
    let inner_type = super::form_do::built_type(steps.skip(1), inner.type_id);
    let rest = choose|rest: ExpressionId|
        is_built(tree, store, steps.skip(1), inner, rest) && #[trigger] is_step(
            tree,
            store,
            steps[0],
            rest,
            inner_type,
            outer,
        );
    let lambda = choose|lambda: ExpressionId|
        #[trigger] is_lambda(
            tree,
            lambda,
            application.lambda_type,
            steps[0]->Application_binder,
            rest,
        ) && applied_to(
            tree,
            application.function.expression,
            application.implicit@,
            lambda,
            outer,
            application.result,
        );
    if let ExpressionKind::TermApplication { function, .. } =
        tree.expressions[outer.raw as int].kind {
        lemma_without_evidence(
            tree,
            application.function.expression,
            application.implicit@,
            function,
        );
    }
}

// `ado` blocks

proof fn lemma_no_actions(steps: Seq<AdoStep>)
    ensures
        action_types(steps).len() == 0 <==> forall|i: int|
            0 <= i < steps.len() ==> (#[trigger] steps[i]) is Let,
    decreases steps.len(),
{
    if steps.len() > 0 {
        let rest = steps.drop_last();
        lemma_no_actions(rest);
        if action_types(steps).len() == 0 {
            assert forall|i: int| 0 <= i < steps.len() implies (#[trigger] steps[i]) is Let by {
                if i < rest.len() {
                    assert(rest[i] is Let);
                }
            }
        } else if forall|i: int| 0 <= i < steps.len() ==> (#[trigger] steps[i]) is Let {
            assert(steps[steps.len() - 1] is Let);
            assert forall|i: int| 0 <= i < rest.len() implies (#[trigger] rest[i]) is Let by {
                assert(steps[i] is Let);
            }
        }
    }
}

/// The first action of an `ado` block is mapped over by the block's function; every
/// later one is applied to by what the action before it yields.
pub proof fn lemma_ado_statement(block: AdoBlock)
    requires
        block.wf(),
        block.index < block.steps@.len(),
    ensures
        match block.steps@[block.index as int] {
            AdoStep::Let { statement } => block.next() matches AdoBlockStep::Let {
                statement: own,
                ..
            } && own == statement,
            AdoStep::Action { expression, .. } => {
                let first = forall|i: int|
                    0 <= i < block.index ==> (#[trigger] block.steps@[i]) is Let;
                &&& block.next() matches AdoBlockStep::Action { action, .. }
                &&& action.expression == expression
                &&& first ==> action.function == block.map && action.first_argument
                    == block.plan.lambda_type
                &&& !first ==> block.apply == Some(action.function) && block.actions@.len() > 0
                    && action.first_argument == block.actions@.last().yields()
            },
        },
{
    let before = block.steps@.take(block.index as int);
    lemma_no_actions(before);
    assert(forall|i: int| 0 <= i < block.index ==> before[i] == (#[trigger] block.steps@[i]));
    let first = forall|i: int| 0 <= i < block.index ==> (#[trigger] block.steps@[i]) is Let;
    if first {
        assert forall|i: int| 0 <= i < before.len() implies (#[trigger] before[i]) is Let by {
            assert(block.steps@[i] is Let);
        }
    } else {
        let i = choose|i: int| 0 <= i < block.index && !((#[trigger] block.steps@[i]) is Let);
        assert(!(before[i] is Let));
        if block.steps@[block.index as int] is Action {
            lemma_two_actions(block.steps@, block.index as int);
        }
    }
}

proof fn lemma_two_actions(steps: Seq<AdoStep>, index: int)
    requires
        0 <= index < steps.len(),
        steps[index] is Action,
        action_types(steps.take(index)).len() > 0,
    ensures
        action_types(steps).len() > 1,
    decreases steps.len(),
{
    if index == steps.len() - 1 {
        assert(steps.take(index) =~= steps.drop_last());
    } else {
        assert(steps.drop_last().take(index) =~= steps.take(index));
        lemma_two_actions(steps.drop_last(), index);
    }
}

/// The binders of an `ado` block's function are those of its actions: as many as there
/// are actions, in the order of the statements.
pub proof fn lemma_ado_binders(steps: Seq<AdoStep>, index: int)
    requires
        0 <= index < steps.len(),
        steps[index] is Action,
    ensures
        action_binders(steps).len() == action_types(steps).len(),
        action_types(steps.take(index)).len() < action_binders(steps).len(),
        action_binders(steps)[action_types(steps.take(index)).len() as int]
            == steps[index]->Action_binder,
        action_types(steps)[action_types(steps.take(index)).len() as int]
            == steps[index]->Action_binder_type,
    decreases steps.len(),
{
    lemma_same_count(steps);
    let rest = steps.drop_last();
    lemma_same_count(rest);
    if index < steps.len() - 1 {
        assert(rest.take(index) =~= steps.take(index));
        lemma_ado_binders(rest, index);
    } else {
        assert(steps.take(index) =~= rest);
    }
}

proof fn lemma_same_count(steps: Seq<AdoStep>)
    ensures
        action_binders(steps).len() == action_types(steps).len(),
    decreases steps.len(),
{
    if steps.len() > 0 {
        lemma_same_count(steps.drop_last());
    }
}

/// What the applications of an `ado` block are applied to, from the outermost on: the
/// second argument of each.
pub open spec fn arguments_along(tree: Tree, id: ExpressionId, actions: Seq<CheckedAdoApplication>) -> Seq<
    ExpressionId,
>
    decreases actions.len(),
{
    if actions.len() == 0 || id.raw >= tree.expressions.len() {
        Seq::empty()
    } else {
        match (tree.expressions[id.raw as int].kind, actions.last()) {
            (
                ExpressionKind::TermApplication { function, argument },
                CheckedAdoApplication::Application { second_implicit, .. },
            ) => {
                let partial = without_evidence(tree, function, second_implicit@.len());
                if partial.raw >= tree.expressions.len() {
                    seq![argument]
                } else {
                    match tree.expressions[partial.raw as int].kind {
                        ExpressionKind::TermApplication { argument: before, .. } => seq![argument]
                            + arguments_along(tree, before, actions.drop_last()),
                        _ => seq![argument],
                    }
                }
            },
            _ => Seq::empty(),
        }
    }
}

/// The actions of an `ado` block stand in its expression in the order of the
/// statements, the last of them outermost.
pub proof fn lemma_actions_in_order(
    tree: Tree,
    actions: Seq<CheckedAdoApplication>,
    lambda: ExpressionId,
    outer: ExpressionId,
)
    requires
        is_pipeline(tree, actions, lambda, outer),
        forall|i: int| 0 <= i < actions.len() ==> (#[trigger] actions[i]) is Application,
    ensures
        arguments_along(tree, outer, actions) == Seq::new(
            actions.len(),
            |i: int| actions[actions.len() - 1 - i]->argument.expression,
        ),
    decreases actions.len(),
{
    let expected = Seq::new(
        actions.len(),
        |i: int| actions[actions.len() - 1 - i]->argument.expression,
    );
    if actions.len() == 0 {
        assert(arguments_along(tree, outer, actions) =~= expected);
    } else {
        let rest = actions.drop_last();
        assert(forall|i: int| 0 <= i < rest.len() ==> rest[i] == actions[i]);
        let before = choose|before: ExpressionId|
            is_pipeline(tree, rest, lambda, before) && #[trigger] is_materialized(
                tree,
                actions.last(),
                before,
                outer,
            );
        assert(actions[actions.len() - 1] is Application);
        lemma_actions_in_order(tree, rest, lambda, before);
        if let CheckedAdoApplication::Application {
            function,
            first_implicit,
            first_result,
            second_implicit,
            argument,
            result,
        } = actions.last() {
            let partial = choose|partial: ExpressionId|
                #[trigger] applied_to(
                    tree,
                    function.expression,
                    first_implicit@,
                    before,
                    partial,
                    first_result,
                ) && applied_to(
                    tree,
                    partial,
                    second_implicit@,
                    argument.expression,
                    outer,
                    result,
                );
            if let ExpressionKind::TermApplication { function: head, .. } =
                tree.expressions[outer.raw as int].kind {
                lemma_without_evidence(tree, partial, second_implicit@, head);
            }
        }
        assert(arguments_along(tree, outer, actions) =~= expected);
    }
}

} // verus!
