//! Elaboration of `ado` blocks.

use super::super::error::{ErrorCrumb, ErrorKind};
use super::super::lowering::{DoStatementId, SourceExpressionId};
use super::super::state::{reported, unification_added, CheckState};
use super::super::tree::{BinderId, BinderKind, ExpressionId, ExpressionKind, LetBindings, Tree};
use super::super::types::{extends, group_extends, Prim, TypeId, Types};
use super::application::{
    allocate_error_expression, allocate_expression, applied_to, evidence_nodes, grown_by,
    lemma_applied_to_extends, lemma_stands_extends, lemma_tree_extends_transitive,
    materialize_application,
    only_expressions_added, stands, tree_extends, ElaboratedExpression, ImplicitApplication,
    UnanchoredApplication,
};
use super::form_do::{
    apply_do_function, binder_generated, function_kind, generate_binder, is_variable,
    DesugaredFunction, DoStatement, ElaboratedBinder,
};
use vstd::prelude::*;

verus! {

/// A statement whose binder has a type.
#[allow(inconsistent_fields)]
#[derive(Clone, Copy, Debug, PartialEq, Eq, Structural)]
pub enum AdoStep {
    Action {
        statement: DoStatementId,
        binder_type: TypeId,
        binder: BinderId,
        expression: SourceExpressionId,
    },
    Let { statement: DoStatementId },
}

/// The step for an action, where there is an expression.
pub open spec fn action_step(
    statement: DoStatementId,
    binder: ElaboratedBinder,
    expression: Option<SourceExpressionId>,
) -> Option<AdoStep> {
    match expression {
        Some(expression) => Some(
            AdoStep::Action {
                statement,
                binder_type: binder.type_id,
                binder: binder.binder,
                expression,
            },
        ),
        None => None,
    }
}

/// The step for a statement; none where the action is missing. The statement's
/// own binder, where it has one, has been inferred.
pub fn ado_step(
    state: &mut CheckState,
    types: &mut Types,
    prim: &Prim,
    statement_id: DoStatementId,
    statement: DoStatement,
    inferred: Option<ElaboratedBinder>,
) -> (step: Option<AdoStep>)
    requires
        old(state).unifications.wf(),
        !old(state).unifications.is_frozen(),
        old(state).unifications@.len() < u32::MAX,
        old(state).checked.tree@.binders.len() <= u32::MAX,
        old(types)@.wf(),
        statement matches DoStatement::Bind { binder: Some(_), .. } ==> inferred is Some,
    ensures
        final(types)@.wf(),
        extends(old(types)@, final(types)@),
        final(types)@ == (match statement {
            DoStatement::Bind { binder: None, .. } => old(types)@.with_variable(
                old(state).unifications@.len(),
            ),
            DoStatement::Discard { .. } => old(types)@.with_variable(old(state).unifications@.len()),
            _ => old(types)@,
        }),
        match statement {
            DoStatement::Bind { binder: Some(_), expression } => {
                &&& *final(state) == *old(state)
                &&& step == action_step(statement_id, inferred->0, expression)
            },
            DoStatement::Let => step == Some(AdoStep::Let { statement: statement_id })
                && *final(state) == *old(state),
            DoStatement::Bind { binder: None, expression } => exists|binder: ElaboratedBinder|
                #[trigger] binder_generated(
                    *old(state),
                    *final(state),
                    final(types)@,
                    *prim,
                    statement_id,
                    BinderKind::Error,
                    binder,
                ) && step == action_step(statement_id, binder, expression),
            DoStatement::Discard { expression } => exists|binder: ElaboratedBinder|
                #[trigger] binder_generated(
                    *old(state),
                    *final(state),
                    final(types)@,
                    *prim,
                    statement_id,
                    BinderKind::Wildcard,
                    binder,
                ) && step == action_step(statement_id, binder, expression),
        },
{
    let (binder, expression) = match statement {
        DoStatement::Bind { binder, expression } => {
            let elaborated = match (binder, inferred) {
                (Some(_), Some(inferred)) => inferred,
                _ => generate_binder(state, types, prim, statement_id, BinderKind::Error),
            };
            (elaborated, expression)
        },
        DoStatement::Let => {
            return Some(AdoStep::Let { statement: statement_id });
        },
        DoStatement::Discard { expression } => {
            (
                generate_binder(state, types, prim, statement_id, BinderKind::Wildcard),
                expression,
            )
        },
    };
    match expression {
        Some(expression) => Some(
            AdoStep::Action {
                statement: statement_id,
                binder_type: binder.type_id,
                binder: binder.binder,
                expression,
            },
        ),
        None => None,
    }
}

/// The types of the actions' binders.
pub open spec fn action_types(steps: Seq<AdoStep>) -> Seq<TypeId>
    decreases steps.len(),
{
    if steps.len() == 0 {
        Seq::empty()
    } else {
        let before = action_types(steps.drop_last());
        match steps.last() {
            AdoStep::Action { binder_type, .. } => before.push(binder_type),
            AdoStep::Let { .. } => before,
        }
    }
}

/// The binders of the actions.
pub open spec fn action_binders(steps: Seq<AdoStep>) -> Seq<BinderId>
    decreases steps.len(),
{
    if steps.len() == 0 {
        Seq::empty()
    } else {
        let before = action_binders(steps.drop_last());
        match steps.last() {
            AdoStep::Action { binder, .. } => before.push(binder),
            AdoStep::Let { .. } => before,
        }
    }
}

/// The binders of the actions and their types.
pub fn ado_binders(steps: &Vec<AdoStep>) -> (actions: (Vec<TypeId>, Vec<BinderId>))
    ensures
        actions.0@ == action_types(steps@),
        actions.1@ == action_binders(steps@),
        actions.0@.len() == actions.1@.len(),
{
    let mut binder_types: Vec<TypeId> = Vec::new();
    let mut binders: Vec<BinderId> = Vec::new();
    let mut index: usize = 0;
    assert(steps@.take(0) =~= Seq::empty());
    while index < steps.len()
        invariant
            index <= steps.len(),
            binder_types@ == action_types(steps@.take(index as int)),
            binders@ == action_binders(steps@.take(index as int)),
            binder_types@.len() == binders@.len(),
        decreases steps.len() - index,
    {
        assert(steps@.take(index + 1).drop_last() =~= steps@.take(index as int));
        if let AdoStep::Action { binder_type, binder, .. } = steps[index] {
            binder_types.push(binder_type);
            binders.push(binder);
        }
        index += 1;
    }
    assert(steps@.take(index as int) =~= steps@);
    (binder_types, binders)
}

/// What the actions of a block are applied to: a function from what they yield to
/// the block's own expression.
#[derive(Debug)]
pub struct AdoPlan {
    pub binders: Vec<BinderId>,
    pub in_expression_type: TypeId,
    pub lambda_type: TypeId,
    /// Whether there are actions beside the first one, which `apply` is needed for.
    pub needs_apply: bool,
}

/// Begins the check of a block; none where it has no action.
pub fn begin_ado(state: &mut CheckState, types: &mut Types, prim: &Prim, steps: &Vec<AdoStep>) -> (
plan: Option<AdoPlan>)
    requires
        old(state).unifications.wf(),
        !old(state).unifications.is_frozen(),
        old(state).unifications@.len() < u32::MAX,
        old(types)@.wf(),
    ensures
        final(types)@.wf(),
        extends(old(types)@, final(types)@),
        final(types)@ == (match plan {
            Some(plan) => old(types)@.with_variable(old(state).unifications@.len()).with_functions(
                action_types(steps@),
                plan.in_expression_type,
            ).0,
            None => old(types)@,
        }),
        plan is Some <==> action_types(steps@).len() > 0,
        match plan {
            None => *final(state) == *old(state),
            Some(plan) => {
                &&& plan.binders@ == action_binders(steps@)
                &&& plan.needs_apply == (action_types(steps@).len() > 1)
                &&& unification_added(*old(state), *final(state), prim.t)
                &&& is_variable(
                    final(types)@,
                    plan.in_expression_type,
                    old(state).unifications@.len(),
                )
                &&& final(types)@.is_function(
                    plan.lambda_type,
                    action_types(steps@),
                    plan.in_expression_type,
                )
            },
        },
{
    broadcast use group_extends;

    let (binder_types, binders) = ado_binders(steps);
    if binder_types.len() == 0 {
        return None;
    }
    let in_expression_type = state.fresh_unification(types, prim.t);
    let ghost before = types@;
    let lambda_type = types.intern_function_list(&binder_types, in_expression_type);
    assert(before.denotes(
        in_expression_type,
        super::super::types::Type::Unification(old(state).unifications@.len() as u32),
    ));
    assert(extends(before, types@));
    Some(
        AdoPlan { binders, in_expression_type, lambda_type, needs_apply: binder_types.len() > 1 },
    )
}

/// What has to be done for a step.
#[allow(inconsistent_fields)]
#[derive(Clone, Copy, Debug, PartialEq, Eq, Structural)]
pub enum AdoRequest {
    /// The bindings of the statement have to be checked.
    CheckLet { crumb: ErrorCrumb },
    /// The expression has to be inferred, and `map` applied to the block's
    /// function and the expression.
    MapAction { crumb: ErrorCrumb, expression: SourceExpressionId, first_argument: TypeId },
    /// The expression has to be inferred, and `apply` applied to what the actions
    /// so far have yielded and the expression.
    ApplyAction { crumb: ErrorCrumb, expression: SourceExpressionId, first_argument: TypeId },
}

/// What has to be done for a step behind actions that have yielded a type.
pub fn ado_request(step: AdoStep, lambda_type: TypeId, continuation_type: Option<TypeId>) -> (request:
    AdoRequest)
    ensures
        request == (match (step, continuation_type) {
            (AdoStep::Let { statement }, _) => AdoRequest::CheckLet {
                crumb: ErrorCrumb::CheckingAdoLet(statement),
            },
            (AdoStep::Action { statement, expression, .. }, None) => AdoRequest::MapAction {
                crumb: ErrorCrumb::InferringAdoMap(statement),
                expression,
                first_argument: lambda_type,
            },
            (AdoStep::Action { statement, expression, .. }, Some(first_argument)) => {
                AdoRequest::ApplyAction {
                    crumb: ErrorCrumb::InferringAdoApply(statement),
                    expression,
                    first_argument,
                }
            },
        }),
{
    match step {
        AdoStep::Let { statement } => AdoRequest::CheckLet {
            crumb: ErrorCrumb::CheckingAdoLet(statement),
        },
        AdoStep::Action { statement, expression, .. } => match continuation_type {
            Some(first_argument) => AdoRequest::ApplyAction {
                crumb: ErrorCrumb::InferringAdoApply(statement),
                expression,
                first_argument,
            },
            None => AdoRequest::MapAction {
                crumb: ErrorCrumb::InferringAdoMap(statement),
                expression,
                first_argument: lambda_type,
            },
        },
    }
}

// Applications

#[allow(inconsistent_fields)]
#[derive(Debug)]
pub enum CheckedAdoApplication {
    Application {
        function: ElaboratedExpression,
        first_implicit: Vec<ImplicitApplication>,
        first_result: TypeId,
        second_implicit: Vec<ImplicitApplication>,
        argument: ElaboratedExpression,
        result: TypeId,
    },
    Error { result: TypeId },
}

/// The outer expression is the application to the first argument.
pub open spec fn is_materialized(
    tree: Tree,
    application: CheckedAdoApplication,
    first_argument: ExpressionId,
    outer: ExpressionId,
) -> bool {
    match application {
        CheckedAdoApplication::Application {
            function,
            first_implicit,
            first_result,
            second_implicit,
            argument,
            result,
        } => exists|partial: ExpressionId|
            #[trigger] applied_to(
                tree,
                function.expression,
                first_implicit@,
                first_argument,
                partial,
                first_result,
            ) && applied_to(
                tree,
                partial,
                second_implicit@,
                argument.expression,
                outer,
                result,
            ),
        CheckedAdoApplication::Error { result } => stands(
            tree,
            outer,
            result,
            ExpressionKind::Error,
        ),
    }
}

proof fn lemma_is_materialized_extends(
    before: Tree,
    after: Tree,
    application: CheckedAdoApplication,
    first_argument: ExpressionId,
    outer: ExpressionId,
)
    requires
        tree_extends(before, after),
        is_materialized(before, application, first_argument, outer),
    ensures
        is_materialized(after, application, first_argument, outer),
{
    match application {
        CheckedAdoApplication::Application {
            function,
            first_implicit,
            first_result,
            second_implicit,
            argument,
            result,
        } => {
            let partial = choose|partial: ExpressionId|
                #[trigger] applied_to(
                    before,
                    function.expression,
                    first_implicit@,
                    first_argument,
                    partial,
                    first_result,
                ) && applied_to(
                    before,
                    partial,
                    second_implicit@,
                    argument.expression,
                    outer,
                    result,
                );
            lemma_applied_to_extends(
                before,
                after,
                function.expression,
                first_implicit@,
                first_argument,
                partial,
                first_result,
            );
            lemma_applied_to_extends(
                before,
                after,
                partial,
                second_implicit@,
                argument.expression,
                outer,
                result,
            );
        },
        CheckedAdoApplication::Error { result } => {},
    }
}

impl CheckedAdoApplication {
    /// The type of the application.
    pub open spec fn yields(self) -> TypeId {
        match self {
            CheckedAdoApplication::Application { result, .. } => result,
            CheckedAdoApplication::Error { result } => result,
        }
    }

    /// How many expressions the application takes.
    pub open spec fn size(self) -> nat {
        match self {
            CheckedAdoApplication::Application { first_implicit, second_implicit, .. } => {
                evidence_nodes(first_implicit@) + evidence_nodes(second_implicit@) + 2
            },
            CheckedAdoApplication::Error { .. } => 1,
        }
    }

    pub fn type_id(&self) -> (type_id: TypeId)
        ensures
            type_id == self.yields(),
    {
        match self {
            CheckedAdoApplication::Application { result, .. } => *result,
            CheckedAdoApplication::Error { result } => *result,
        }
    }

    /// Puts the application to a first argument into the tree.
    pub fn materialize(&self, state: &mut CheckState, first_argument: ElaboratedExpression) -> (outer:
        ElaboratedExpression)
        requires
            old(state).checked.tree@.expressions.len() + self.size() <= u32::MAX,
        ensures
            grown_by(*old(state), *final(state), self.size()),
            outer.type_id == self.yields(),
            is_materialized(
                final(state).checked.tree@,
                *self,
                first_argument.expression,
                outer.expression,
            ),
    {
        match self {
            CheckedAdoApplication::Application {
                function,
                first_implicit,
                first_result,
                second_implicit,
                argument,
                result,
            } => {
                let partial = materialize_application(
                    state,
                    *function,
                    first_implicit,
                    *first_result,
                    first_argument,
                );
                let ghost first = state.checked.tree@;
                let outer = materialize_application(
                    state,
                    partial,
                    second_implicit,
                    *result,
                    *argument,
                );
                proof {
                    lemma_tree_extends_transitive(
                        old(state).checked.tree@,
                        first,
                        state.checked.tree@,
                    );
                    lemma_applied_to_extends(
                        first,
                        state.checked.tree@,
                        function.expression,
                        first_implicit@,
                        first_argument.expression,
                        partial.expression,
                        *first_result,
                    );
                }
                outer
            },
            CheckedAdoApplication::Error { result } => allocate_error_expression(state, *result),
        }
    }
}

/// The application of a function of the block. The first argument has been made a
/// subtype of the first parameter, and the action one of the second.
pub fn infer_ado_application_core(
    state: &mut CheckState,
    function: &DesugaredFunction,
    first: UnanchoredApplication,
    second: UnanchoredApplication,
    argument: ElaboratedExpression,
) -> (application: CheckedAdoApplication)
    requires
        old(state).checked.tree@.expressions.len() <= u32::MAX,
    ensures
        only_expressions_added(*old(state), *final(state)),
        final(state).checked.tree@ == old(state).checked.tree@.with_expression(
            function.type_id,
            function_kind(function.resolution),
        ),
        application == (CheckedAdoApplication::Application {
            function: ElaboratedExpression {
                type_id: function.type_id,
                expression: old(state).checked.tree@.next_expression(),
            },
            first_implicit: first.implicit,
            first_result: first.result,
            second_implicit: second.implicit,
            argument,
            result: second.result,
        }),
{
    let function = function.allocate_expression(state);
    CheckedAdoApplication::Application {
        function,
        first_implicit: first.implicit,
        first_result: first.result,
        second_implicit: second.implicit,
        argument,
        result: second.result,
    }
}

/// The application of what is no function.
pub fn invalid_ado_application(types: &mut Types) -> (application: CheckedAdoApplication)
    requires
        old(types)@.wf(),
    ensures
        final(types)@.wf(),
        extends(old(types)@, final(types)@),
        final(types)@ == old(types)@.with_unknown("invalid function application"@).0,
        application is Error,
        final(types)@.is_unknown(application.yields(), "invalid function application"@),
{
    let result = types.unknown("invalid function application");
    CheckedAdoApplication::Error { result }
}

// Assembly

/// The outer expression is the inner one within the bindings, the first of them
/// outermost. All have the same type.
pub open spec fn is_wrapped(
    tree: Tree,
    bindings: Seq<LetBindings>,
    inner: ElaboratedExpression,
    outer: ExpressionId,
) -> bool
    decreases bindings.len(),
{
    if bindings.len() == 0 {
        outer == inner.expression
    } else {
        exists|rest: ExpressionId|
            is_wrapped(tree, bindings.skip(1), inner, rest) && #[trigger] stands(
                tree,
                outer,
                inner.type_id,
                ExpressionKind::Let { bindings: bindings[0], expression: rest },
            )
    }
}

proof fn lemma_is_wrapped_extends(
    before: Tree,
    after: Tree,
    bindings: Seq<LetBindings>,
    inner: ElaboratedExpression,
    outer: ExpressionId,
)
    requires
        tree_extends(before, after),
        is_wrapped(before, bindings, inner, outer),
    ensures
        is_wrapped(after, bindings, inner, outer),
    decreases bindings.len(),
{
    if bindings.len() > 0 {
        let rest = choose|rest: ExpressionId|
            is_wrapped(before, bindings.skip(1), inner, rest) && #[trigger] stands(
                before,
                outer,
                inner.type_id,
                ExpressionKind::Let { bindings: bindings[0], expression: rest },
            );
        lemma_is_wrapped_extends(before, after, bindings.skip(1), inner, rest);
        assert(stands(
            after,
            outer,
            inner.type_id,
            ExpressionKind::Let { bindings: bindings[0], expression: rest },
        ));
    }
}

/// Puts bindings around an expression, the first of them outermost.
pub fn wrap_ado_lets(
    state: &mut CheckState,
    bindings: Vec<LetBindings>,
    expression: ElaboratedExpression,
) -> (wrapped: ElaboratedExpression)
    requires
        old(state).checked.tree@.expressions.len() + bindings@.len() <= u32::MAX,
    ensures
        grown_by(*old(state), *final(state), bindings@.len()),
        wrapped.type_id == expression.type_id,
        is_wrapped(final(state).checked.tree@, bindings@, expression, wrapped.expression),
{
    let mut bindings = bindings;
    let ghost all = bindings@;
    let mut wrapped = expression;
    assert(all.skip(all.len() as int) =~= Seq::empty());
    loop
        invariant
            bindings@ == all.take(bindings@.len() as int),
            bindings@.len() <= all.len(),
            only_expressions_added(*old(state), *state),
            state.checked.tree@.expressions.len() == old(state).checked.tree@.expressions.len()
                + all.len() - bindings@.len(),
            old(state).checked.tree@.expressions.len() + all.len() <= u32::MAX,
            is_wrapped(
                state.checked.tree@,
                all.skip(bindings@.len() as int),
                expression,
                wrapped.expression,
            ),
            wrapped.type_id == expression.type_id,
        ensures
            bindings@.len() == 0,
        decreases bindings@.len(),
    {
        let Some(chunk) = bindings.pop() else {
            break;
        };
        let ghost tree = state.checked.tree@;
        let ghost rest = wrapped.expression;
        proof {
            assert(all.take(bindings@.len() as int + 1).drop_last() =~= bindings@);
            assert(all.skip(bindings@.len() as int).skip(1) =~= all.skip(
                bindings@.len() as int + 1,
            ));
            assert(all.skip(bindings@.len() as int)[0] == chunk);
        }
        let kind = ExpressionKind::Let { bindings: chunk, expression: wrapped.expression };
        wrapped = allocate_expression(state, wrapped.type_id, kind);
        proof {
            lemma_tree_extends_transitive(old(state).checked.tree@, tree, state.checked.tree@);
            lemma_is_wrapped_extends(
                tree,
                state.checked.tree@,
                all.skip(bindings@.len() as int + 1),
                expression,
                rest,
            );
        }
    }
    assert(all.skip(0) =~= all);
    wrapped
}

/// The block without actions whose `pure` cannot be applied.
pub fn invalid_pure(state: &mut CheckState, types: &mut Types, lets: Vec<LetBindings>) -> (block:
    ElaboratedExpression)
    requires
        old(state).checked.tree@.expressions.len() + lets@.len() + 1 <= u32::MAX,
        old(types)@.wf(),
    ensures
        final(types)@.wf(),
        extends(old(types)@, final(types)@),
        final(types)@ == old(types)@.with_unknown("invalid function application"@).0,
        final(types)@.is_unknown(block.type_id, "invalid function application"@),
        wraps_error(*old(state), *final(state), lets@, block),
{
    let type_id = types.unknown("invalid function application");
    let expression = allocate_error_expression(state, type_id);
    let ghost tree = state.checked.tree@;
    let block = wrap_ado_lets(state, lets, expression);
    proof {
        lemma_tree_extends_transitive(old(state).checked.tree@, tree, state.checked.tree@);
        lemma_stands_extends(
            tree,
            state.checked.tree@,
            expression.expression,
            type_id,
            ExpressionKind::Error,
        );
    }
    block
}

/// The block is a new error within bindings.
pub open spec fn wraps_error(
    before: CheckState,
    after: CheckState,
    lets: Seq<LetBindings>,
    block: ElaboratedExpression,
) -> bool {
    let error = ElaboratedExpression {
        type_id: block.type_id,
        expression: before.checked.tree@.next_expression(),
    };
    &&& grown_by(before, after, lets.len() + 1)
    &&& stands(after.checked.tree@, error.expression, error.type_id, ExpressionKind::Error)
    &&& is_wrapped(after.checked.tree@, lets, error, block.expression)
}

/// The block without actions and without an expression.
pub fn empty_ado(state: &mut CheckState, types: &mut Types, lets: Vec<LetBindings>) -> (block:
    ElaboratedExpression)
    requires
        old(state).checked.tree@.expressions.len() + lets@.len() + 1 <= u32::MAX,
        old(types)@.wf(),
    ensures
        final(types)@.wf(),
        extends(old(types)@, final(types)@),
        final(types)@ == old(types)@.with_unknown("empty ado block"@).0,
        final(types)@.is_unknown(block.type_id, "empty ado block"@),
        exists|middle: CheckState| #[trigger]
            reported(*old(state), middle, ErrorKind::EmptyAdoBlock) && wraps_error(
                middle,
                *final(state),
                lets@,
                block,
            ),
{
    state.insert_error(ErrorKind::EmptyAdoBlock);
    let ghost middle = *state;
    let type_id = types.unknown("empty ado block");
    let expression = allocate_error_expression(state, type_id);
    let ghost tree = state.checked.tree@;
    let block = wrap_ado_lets(state, lets, expression);
    proof {
        lemma_tree_extends_transitive(middle.checked.tree@, tree, state.checked.tree@);
        lemma_stands_extends(
            tree,
            state.checked.tree@,
            expression.expression,
            type_id,
            ExpressionKind::Error,
        );
    }
    block
}

/// The expression, or an error of the type in its place.
pub open spec fn is_or_error(
    tree: Tree,
    expression: Option<ElaboratedExpression>,
    type_id: TypeId,
    inner: ExpressionId,
) -> bool {
    match expression {
        Some(expression) => inner == expression.expression,
        None => stands(tree, inner, type_id, ExpressionKind::Error),
    }
}

/// The block without actions: `pure` applied to its expression, which has been
/// checked against the argument of `pure`. Where an action is missing, an error
/// stands in its place.
pub fn pure_ado(
    state: &mut CheckState,
    function: &DesugaredFunction,
    application: &UnanchoredApplication,
    argument: ElaboratedExpression,
    has_missing_action: bool,
    lets: Vec<LetBindings>,
) -> (block: ElaboratedExpression)
    requires
        old(state).checked.tree@.expressions.len() + evidence_nodes(application.implicit@)
            + lets@.len() + 3 <= u32::MAX,
    ensures
        grown_by(
            *old(state),
            *final(state),
            evidence_nodes(application.implicit@) + lets@.len() + (if has_missing_action {
                3nat
            } else {
                2
            }),
        ),
        block.type_id == application.result,
        exists|head: ExpressionId, inner: ExpressionId, applied: ExpressionId|
            {
                &&& #[trigger] stands(
                    final(state).checked.tree@,
                    head,
                    function.type_id,
                    function_kind(function.resolution),
                )
                &&& is_or_error(
                    final(state).checked.tree@,
                    if has_missing_action {
                        None
                    } else {
                        Some(argument)
                    },
                    argument.type_id,
                    inner,
                )
                &&& #[trigger] applied_to(
                    final(state).checked.tree@,
                    head,
                    application.implicit@,
                    inner,
                    applied,
                    application.result,
                )
                &&& is_wrapped(
                    final(state).checked.tree@,
                    lets@,
                    ElaboratedExpression { type_id: application.result, expression: applied },
                    block.expression,
                )
            },
{
    let inner = if has_missing_action {
        allocate_error_expression(state, argument.type_id)
    } else {
        argument
    };
    let ghost first = *state;
    let applied = apply_do_function(state, function, application, inner);
    let ghost second = state.checked.tree@;
    let block = wrap_ado_lets(state, lets, applied);
    proof {
        let last = state.checked.tree@;
        let head = first.checked.tree@.next_expression();
        lemma_tree_extends_transitive(old(state).checked.tree@, first.checked.tree@, second);
        lemma_tree_extends_transitive(old(state).checked.tree@, second, last);
        lemma_tree_extends_transitive(first.checked.tree@, second, last);
        lemma_applied_to_extends(
            second,
            last,
            head,
            application.implicit@,
            inner.expression,
            applied.expression,
            application.result,
        );
        lemma_stands_extends(
            second,
            last,
            head,
            function.type_id,
            function_kind(function.resolution),
        );
        if has_missing_action {
            lemma_stands_extends(
                first.checked.tree@,
                last,
                inner.expression,
                argument.type_id,
                ExpressionKind::Error,
            );
        }
        assert(stands(last, head, function.type_id, function_kind(function.resolution)));
    }
    block
}

/// The outer expression is the block's function with the applications around it,
/// the first of them innermost.
pub open spec fn is_pipeline(
    tree: Tree,
    actions: Seq<CheckedAdoApplication>,
    lambda: ExpressionId,
    outer: ExpressionId,
) -> bool
    decreases actions.len(),
{
    if actions.len() == 0 {
        outer == lambda
    } else {
        exists|before: ExpressionId|
            is_pipeline(tree, actions.drop_last(), lambda, before) && #[trigger] is_materialized(
                tree,
                actions.last(),
                before,
                outer,
            )
    }
}

proof fn lemma_is_pipeline_extends(
    before: Tree,
    after: Tree,
    actions: Seq<CheckedAdoApplication>,
    lambda: ExpressionId,
    outer: ExpressionId,
)
    requires
        tree_extends(before, after),
        is_pipeline(before, actions, lambda, outer),
    ensures
        is_pipeline(after, actions, lambda, outer),
    decreases actions.len(),
{
    if actions.len() > 0 {
        let rest = choose|rest: ExpressionId|
            is_pipeline(before, actions.drop_last(), lambda, rest) && #[trigger] is_materialized(
                before,
                actions.last(),
                rest,
                outer,
            );
        lemma_is_pipeline_extends(before, after, actions.drop_last(), lambda, rest);
        lemma_is_materialized_extends(before, after, actions.last(), rest, outer);
    }
}

/// How many expressions applications take.
pub open spec fn pipeline_size(actions: Seq<CheckedAdoApplication>) -> nat
    decreases actions.len(),
{
    if actions.len() == 0 {
        0
    } else {
        pipeline_size(actions.drop_last()) + actions.last().size()
    }
}

proof fn lemma_pipeline_size(actions: Seq<CheckedAdoApplication>, count: int)
    requires
        0 <= count <= actions.len(),
    ensures
        pipeline_size(actions.take(count)) <= pipeline_size(actions),
    decreases actions.len() - count,
{
    if count < actions.len() {
        lemma_pipeline_size(actions, count + 1);
        assert(actions.take(count + 1).drop_last() =~= actions.take(count));
    } else {
        assert(actions.take(count) =~= actions);
    }
}

/// The expression is the block's function.
pub open spec fn is_block_function(
    tree: Tree,
    id: ExpressionId,
    type_id: TypeId,
    binders: Vec<BinderId>,
    body: ExpressionId,
) -> bool {
    stands(tree, id, type_id, ExpressionKind::Lambda { binders, expression: body })
}

/// Puts a block with actions together: `map` and `apply` on the function of the
/// actions' binders and the actions. An error stands in place of an expression
/// that is missing, or where an action is missing.
pub fn finish_ado(
    state: &mut CheckState,
    plan: AdoPlan,
    actions: &Vec<CheckedAdoApplication>,
    expression: Option<ElaboratedExpression>,
    has_missing_action: bool,
    lets: Vec<LetBindings>,
) -> (block: ElaboratedExpression)
    requires
        actions@.len() > 0,
        old(state).checked.tree@.expressions.len() + pipeline_size(actions@) + lets@.len() + 3
            <= u32::MAX,
    ensures
        grown_by(
            *old(state),
            *final(state),
            pipeline_size(actions@) + lets@.len() + 1 + (if expression is None {
                1nat
            } else {
                0
            }) + (if has_missing_action {
                1nat
            } else {
                0
            }),
        ),
        block.type_id == actions@.last().yields(),
        exists|inner: ExpressionId, body: ExpressionId, lambda: ExpressionId|
            {
                &&& is_or_error(
                    final(state).checked.tree@,
                    if has_missing_action {
                        None
                    } else {
                        expression
                    },
                    plan.in_expression_type,
                    inner,
                )
                &&& #[trigger] is_wrapped(
                    final(state).checked.tree@,
                    lets@,
                    ElaboratedExpression {
                        type_id: plan.in_expression_type,
                        expression: inner,
                    },
                    body,
                )
                &&& #[trigger] is_block_function(
                    final(state).checked.tree@,
                    lambda,
                    plan.lambda_type,
                    plan.binders,
                    body,
                )
                &&& is_pipeline(
                    final(state).checked.tree@,
                    actions@,
                    lambda,
                    block.expression,
                )
            },
{
    let checked = match expression {
        Some(expression) => expression,
        None => allocate_error_expression(state, plan.in_expression_type),
    };
    let ghost first = state.checked.tree@;
    let inner = if has_missing_action {
        allocate_error_expression(state, plan.in_expression_type)
    } else {
        checked
    };
    let ghost second = state.checked.tree@;
    let inner = ElaboratedExpression {
        type_id: plan.in_expression_type,
        expression: inner.expression,
    };
    let body = wrap_ado_lets(state, lets, inner);
    let ghost third = state.checked.tree@;
    let kind = ExpressionKind::Lambda { binders: plan.binders, expression: body.expression };
    let lambda = allocate_expression(state, plan.lambda_type, kind);
    let ghost fourth = state.checked.tree@;
    let mut outer = lambda;
    let mut index: usize = 0;
    proof {
        lemma_tree_extends_transitive(old(state).checked.tree@, first, second);
        lemma_tree_extends_transitive(old(state).checked.tree@, second, third);
        lemma_tree_extends_transitive(old(state).checked.tree@, third, fourth);
        lemma_tree_extends_transitive(first, second, third);
        lemma_tree_extends_transitive(first, third, fourth);
        lemma_tree_extends_transitive(second, third, fourth);
        assert(actions@.take(0) =~= Seq::empty());
    }
    while index < actions.len()
        invariant
            index <= actions.len(),
            only_expressions_added(*old(state), *state),
            tree_extends(fourth, state.checked.tree@),
            fourth.expressions.len() + pipeline_size(actions@) <= u32::MAX,
            state.checked.tree@.expressions.len() == fourth.expressions.len() + pipeline_size(
                actions@.take(index as int),
            ),
            is_pipeline(
                state.checked.tree@,
                actions@.take(index as int),
                lambda.expression,
                outer.expression,
            ),
            index > 0 ==> outer.type_id == actions@[index - 1].yields(),
        decreases actions.len() - index,
    {
        let ghost tree = state.checked.tree@;
        let ghost before = outer.expression;
        proof {
            assert(actions@.take(index + 1).drop_last() =~= actions@.take(index as int));
            lemma_pipeline_size(actions@, index + 1);
        }
        outer = actions[index].materialize(state, outer);
        proof {
            lemma_tree_extends_transitive(old(state).checked.tree@, tree, state.checked.tree@);
            lemma_tree_extends_transitive(fourth, tree, state.checked.tree@);
            lemma_is_pipeline_extends(
                tree,
                state.checked.tree@,
                actions@.take(index as int),
                lambda.expression,
                before,
            );
        }
        index += 1;
    }
    proof {
        let last = state.checked.tree@;
        assert(actions@.take(index as int) =~= actions@);
        lemma_tree_extends_transitive(first, fourth, last);
        lemma_tree_extends_transitive(second, fourth, last);
        lemma_tree_extends_transitive(third, fourth, last);
        if has_missing_action {
            lemma_stands_extends(
                second,
                last,
                inner.expression,
                plan.in_expression_type,
                ExpressionKind::Error,
            );
        } else if expression is None {
            lemma_stands_extends(
                first,
                last,
                inner.expression,
                plan.in_expression_type,
                ExpressionKind::Error,
            );
        }
        lemma_is_wrapped_extends(third, last, lets@, inner, body.expression);
        lemma_stands_extends(fourth, last, lambda.expression, plan.lambda_type, kind);
        assert(is_block_function(
            last,
            lambda.expression,
            plan.lambda_type,
            plan.binders,
            body.expression,
        ));
    }
    ElaboratedExpression { type_id: outer.type_id, expression: outer.expression }
}

} // verus!
