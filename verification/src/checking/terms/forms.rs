//! Elaboration of conditionals, functions and case expressions.

use super::super::evidence::{EvidenceBinderId, EvidenceModel};
use super::super::lowering::SourceBinderId;
use super::super::state::{
    exhaustiveness_reported, unification_added, wanted, CheckState, CheckedModule,
    ExhaustivenessReport,
};
use super::super::tree::{
    is_plain, BinderId, CaseAlternative, ExpressionId, ExpressionKind, GuardedExpression, Tree,
    WhereExpression,
};
use super::super::types::{
    extends, lemma_denotes_extends, lemma_extends_transitive, lemma_function_extends, Prim, Type,
    TypeId, Types,
};
use super::application::{
    allocate_error_expression, allocate_expression, error_allocated, grown_by,
    lemma_tree_extends_transitive, only_expressions_added, stands, tree_extends, ElaboratedExpression,
};
use super::equations::{enumerated, push_enumerated};
use super::form_ado::is_or_error;
use super::form_do::{fresh_variables, is_variable, variables_added};
use super::guarded::GuardedExpressionMode;
use vstd::prelude::*;

verus! {

/// Whether the type of an expression is to be found or is known.
#[derive(Clone, Copy, Debug, PartialEq, Eq, Structural)]
pub enum ExpressionMode {
    Infer,
    Check { expected: TypeId },
}

/// The type that the parts of an expression are checked against.
pub fn result_type(state: &mut CheckState, types: &mut Types, prim: &Prim, mode: ExpressionMode) -> (
result: TypeId)
    requires
        old(state).unifications.wf(),
        !old(state).unifications.is_frozen(),
        old(state).unifications@.len() < u32::MAX,
        old(types)@.wf(),
    ensures
        final(types)@.wf(),
        extends(old(types)@, final(types)@),
        match mode {
            ExpressionMode::Infer => unification_added(*old(state), *final(state), prim.t)
                && is_variable(final(types)@, result, old(state).unifications@.len()),
            ExpressionMode::Check { expected } => result == expected && *final(state) == *old(
                state,
            ) && final(types)@ == old(types)@,
        },
{
    match mode {
        ExpressionMode::Infer => state.fresh_unification(types, prim.t),
        ExpressionMode::Check { expected } => expected,
    }
}

/// How many errors stand in place of a part of an expression.
pub open spec fn missing_nodes(checked: Option<ElaboratedExpression>) -> nat {
    if checked is None {
        1
    } else {
        0
    }
}

/// A part of an expression that has been checked, or an error where it is
/// missing.
fn expression_or_error(
    state: &mut CheckState,
    checked: Option<ElaboratedExpression>,
    type_id: TypeId,
) -> (id: ExpressionId)
    requires
        old(state).checked.tree@.expressions.len() <= u32::MAX,
    ensures
        grown_by(*old(state), *final(state), missing_nodes(checked)),
        is_or_error(final(state).checked.tree@, checked, type_id, id),
{
    match checked {
        Some(checked) => checked.expression,
        None => allocate_error_expression(state, type_id).expression,
    }
}

proof fn lemma_is_or_error_extends(
    before: Tree,
    after: Tree,
    expression: Option<ElaboratedExpression>,
    type_id: TypeId,
    inner: ExpressionId,
)
    requires
        tree_extends(before, after),
        is_or_error(before, expression, type_id, inner),
    ensures
        is_or_error(after, expression, type_id, inner),
{
}

/// The expression is a conditional of these parts, or of errors in place of those
/// that are missing.
pub open spec fn is_conditional(
    tree: Tree,
    prim: Prim,
    if_: Option<ElaboratedExpression>,
    then_: Option<ElaboratedExpression>,
    else_: Option<ElaboratedExpression>,
    conditional: ElaboratedExpression,
) -> bool {
    exists|condition: ExpressionId, yes: ExpressionId, no: ExpressionId|
        {
            &&& is_or_error(tree, if_, prim.boolean, condition)
            &&& is_or_error(tree, then_, conditional.type_id, yes)
            &&& is_or_error(tree, else_, conditional.type_id, no)
            &&& #[trigger] stands(
                tree,
                conditional.expression,
                conditional.type_id,
                ExpressionKind::IfThenElse { condition, then: yes, else_: no },
            )
        }
}

/// A conditional. The condition has been checked against the type of booleans, the
/// branches against the result's type. An error stands in place of a part that is
/// missing.
pub fn if_then_else_core(
    state: &mut CheckState,
    prim: &Prim,
    if_: Option<ElaboratedExpression>,
    then_: Option<ElaboratedExpression>,
    else_: Option<ElaboratedExpression>,
    result_type: TypeId,
) -> (conditional: ElaboratedExpression)
    requires
        old(state).checked.tree@.expressions.len() + 4 <= u32::MAX,
    ensures
        grown_by(
            *old(state),
            *final(state),
            1 + missing_nodes(if_) + missing_nodes(then_) + missing_nodes(else_),
        ),
        conditional.type_id == result_type,
        is_conditional(
            final(state).checked.tree@,
            *prim,
            if_,
            then_,
            else_,
            conditional,
        ),
{
    let condition = expression_or_error(state, if_, prim.boolean);
    let ghost first = state.checked.tree@;
    let yes = expression_or_error(state, then_, result_type);
    let ghost second = state.checked.tree@;
    let no = expression_or_error(state, else_, result_type);
    let ghost third = state.checked.tree@;
    let kind = ExpressionKind::IfThenElse { condition, then: yes, else_: no };
    let conditional = allocate_expression(state, result_type, kind);
    proof {
        let last = state.checked.tree@;
        let start = old(state).checked.tree@;
        lemma_tree_extends_transitive(start, first, second);
        lemma_tree_extends_transitive(start, second, third);
        lemma_tree_extends_transitive(start, third, last);
        lemma_tree_extends_transitive(second, third, last);
        lemma_tree_extends_transitive(first, second, last);
        lemma_is_or_error_extends(first, last, if_, prim.boolean, condition);
        lemma_is_or_error_extends(second, last, then_, result_type, yes);
        lemma_is_or_error_extends(third, last, else_, result_type, no);
        assert(stands(last, conditional.expression, result_type, kind));
    }
    conditional
}

// Functions

/// The types of a function whose binders are still to be checked, one new type for
/// each.
pub fn lambda_body_type(
    state: &mut CheckState,
    types: &mut Types,
    prim: &Prim,
) -> (body: ElaboratedExpression)
    requires
        old(state).unifications.wf(),
        !old(state).unifications.is_frozen(),
        old(state).unifications@.len() < u32::MAX,
        old(state).checked.tree@.expressions.len() <= u32::MAX,
        old(types)@.wf(),
    ensures
        final(types)@.wf(),
        extends(old(types)@, final(types)@),
        final(types)@ == old(types)@.with_variable(old(state).unifications@.len()),
        is_variable(final(types)@, body.type_id, old(state).unifications@.len()),
        exists|middle: CheckState| #[trigger]
            unification_added(*old(state), middle, prim.t)
                && error_allocated(middle, *final(state), body),
{
    let type_id = state.fresh_unification(types, prim.t);
    let ghost middle = *state;
    let body = allocate_error_expression(state, type_id);
    assert(unification_added(*old(state), middle, prim.t));
    body
}

/// What is to be done for the next binder of a function that is checked against a
/// type.
#[derive(Clone, Copy, Debug, PartialEq, Eq, Structural)]
pub enum LambdaStep {
    /// The remaining binders belong to a function within the first one, since the
    /// remaining type quantifies or constrains.
    Abstract,
    /// The remaining type is to be taken apart.
    Decompose,
}

/// What is to be done for the next binder. The remaining type has been expanded,
/// unless no binder has been checked yet.
pub fn check_lambda_step(types: &Types, checked: usize, expanded: TypeId) -> (step: LambdaStep)
    requires
        checked > 0 ==> types@.has_type(expanded),
    ensures
        step == (if checked > 0 && (types@.type_at(expanded) is Forall || types@.type_at(
            expanded,
        ) is Constrained) {
            LambdaStep::Abstract
        } else {
            LambdaStep::Decompose
        }),
{
    if checked > 0 {
        match types.lookup_type(expanded) {
            Type::Forall(..) => LambdaStep::Abstract,
            Type::Constrained(..) => LambdaStep::Abstract,
            _ => LambdaStep::Decompose,
        }
    } else {
        LambdaStep::Decompose
    }
}

/// The argument and the result of a function type that is still to be found, with
/// that type.
#[derive(Clone, Copy, Debug, PartialEq, Eq, Structural)]
pub struct FreshFunction {
    pub argument: TypeId,
    pub result: TypeId,
    pub function: TypeId,
}

/// The function type that a type which cannot be taken apart has to be.
pub fn fresh_function(state: &mut CheckState, types: &mut Types, prim: &Prim) -> (fresh:
    FreshFunction)
    requires
        old(state).unifications.wf(),
        !old(state).unifications.is_frozen(),
        old(state).unifications@.len() + 2 <= u32::MAX,
        old(types)@.wf(),
    ensures
        final(types)@.wf(),
        extends(old(types)@, final(types)@),
        final(types)@ == old(types)@.with_variables(old(state).unifications@.len(), 2).with_type(
            Type::Function(fresh.argument, fresh.result),
        ),
        variables_added(*old(state), *final(state), seq![prim.t, prim.t]),
        is_variable(final(types)@, fresh.argument, old(state).unifications@.len()),
        is_variable(final(types)@, fresh.result, old(state).unifications@.len() + 1),
        final(types)@.denotes(fresh.function, Type::Function(fresh.argument, fresh.result)),
{
    let ids = fresh_variables(state, types, prim, 2);
    let ghost before = types@;
    let argument = ids[0];
    let result = ids[1];
    let function = types.intern_function(argument, result);
    proof {
        let first = old(state).unifications@.len();
        assert(is_variable(before, ids@[0], first));
        assert(is_variable(before, ids@[1], first + 1));
        lemma_denotes_extends(
            before,
            types@,
            argument,
            Type::Unification(first as u32),
        );
        lemma_denotes_extends(
            before,
            types@,
            result,
            Type::Unification((first + 1) as u32),
        );
        assert(Seq::new(2nat, |i: int| prim.t) =~= seq![prim.t, prim.t]);
    }
    FreshFunction { argument, result, function }
}

/// The expression was added as it is.
pub open spec fn plainly_added(
    before: CheckState,
    after: CheckState,
    type_id: TypeId,
    kind: ExpressionKind,
    added: ElaboratedExpression,
) -> bool {
    &&& only_expressions_added(before, after)
    &&& after.checked.tree@ == before.checked.tree@.with_expression(type_id, kind)
    &&& added == (ElaboratedExpression {
        type_id,
        expression: before.checked.tree@.next_expression(),
    })
}

/// The expression was added under an abstraction over evidence that it is partial.
pub open spec fn partially_added(
    before: CheckState,
    after: CheckState,
    prim: Prim,
    type_id: TypeId,
    kind: ExpressionKind,
    added: ElaboratedExpression,
) -> bool {
    let binder = EvidenceBinderId { raw: before.checked.evidence@.binders.len() as u32 };
    let expression = before.checked.tree@.next_expression();
    let inner = before.checked.tree@.with_expression(type_id, kind);
    &&& after == (CheckState {
        checked: CheckedModule {
            tree: after.checked.tree,
            evidence: after.checked.evidence,
            ..before.checked
        },
        ..before
    })
    &&& after.checked.evidence@ == (EvidenceModel {
        binders: before.checked.evidence@.binders.push(prim.partial),
        ..before.checked.evidence@
    })
    &&& after.checked.tree@ == inner.with_expression(
        added.type_id,
        ExpressionKind::EvidenceAbstraction { binder, expression },
    )
    &&& added.expression == inner.next_expression()
}

/// Adds an expression, which takes evidence that it is partial where patterns are
/// missing. That is part of its type.
fn add_inferred(
    state: &mut CheckState,
    types: &mut Types,
    prim: &Prim,
    has_missing: bool,
    type_id: TypeId,
    kind: ExpressionKind,
) -> (added: ElaboratedExpression)
    requires
        old(types)@.wf(),
        old(state).checked.tree@.expressions.len() < u32::MAX,
        old(state).checked.evidence@.binders.len() <= u32::MAX,
    ensures
        final(types)@.wf(),
        extends(old(types)@, final(types)@),
        has_missing ==> final(types)@ == old(types)@.with_type(
            Type::Constrained(prim.partial, type_id),
        ),
        !has_missing ==> plainly_added(*old(state), *final(state), type_id, kind, added)
            && final(types)@ == old(types)@,
        has_missing ==> partially_added(*old(state), *final(state), *prim, type_id, kind, added)
            && final(types)@.denotes(added.type_id, Type::Constrained(prim.partial, type_id)),
{
    if has_missing {
        let partial_type = types.intern_constrained(prim.partial, type_id);
        let expression = state.allocate_expression(type_id, kind);
        let binder = state.checked.evidence.fresh_binder(prim.partial);
        let kind = ExpressionKind::EvidenceAbstraction { binder, expression };
        allocate_expression(state, partial_type, kind)
    } else {
        allocate_expression(state, type_id, kind)
    }
}

/// Adds an expression; evidence that it is partial is asked for where patterns are
/// missing.
fn add_checked(
    state: &mut CheckState,
    prim: &Prim,
    has_missing: bool,
    type_id: TypeId,
    kind: ExpressionKind,
) -> (added: ElaboratedExpression)
    requires
        old(state).implications@.wf(),
        old(state).checked.tree@.expressions.len() <= u32::MAX,
        old(state).checked.evidence@.variables.len() <= u32::MAX,
    ensures
        final(state).implications@.wf(),
        !has_missing ==> plainly_added(*old(state), *final(state), type_id, kind, added),
        has_missing ==> exists|middle: CheckState, evidence| #[trigger]
            wanted(*old(state), middle, prim.partial, evidence) && plainly_added(
                middle,
                *final(state),
                type_id,
                kind,
                added,
            ),
{
    if has_missing {
        let evidence = state.push_wanted(prim.partial);
        let ghost middle = *state;
        let added = allocate_expression(state, type_id, kind);
        assert(wanted(*old(state), middle, prim.partial, evidence));
        added
    } else {
        allocate_expression(state, type_id, kind)
    }
}

/// A function whose binders and body have been inferred.
pub fn infer_lambda(
    state: &mut CheckState,
    types: &mut Types,
    prim: &Prim,
    arguments: &Vec<TypeId>,
    binders: Vec<BinderId>,
    body: ElaboratedExpression,
    exhaustiveness: ExhaustivenessReport,
) -> (lambda: ElaboratedExpression)
    requires
        old(types)@.wf(),
        old(state).implications@.wf(),
        old(state).checked.tree@.expressions.len() < u32::MAX,
        old(state).checked.evidence@.binders.len() <= u32::MAX,
    ensures
        final(types)@.wf(),
        extends(old(types)@, final(types)@),
        final(types)@ == ({
            let (held, function) = old(types)@.with_functions(arguments@, body.type_id);
            if exhaustiveness.missing is Some {
                held.with_type(Type::Constrained(prim.partial, function))
            } else {
                held
            }
        }),
        exists|function_type: TypeId, middle: CheckState|
            {
                let kind = ExpressionKind::Lambda { binders, expression: body.expression };
                &&& #[trigger] final(types)@.is_function(function_type, arguments@, body.type_id)
                &&& #[trigger] exhaustiveness_reported(*old(state), middle, exhaustiveness)
                &&& exhaustiveness.missing is None ==> plainly_added(
                    middle,
                    *final(state),
                    function_type,
                    kind,
                    lambda,
                )
                &&& exhaustiveness.missing is Some ==> partially_added(
                    middle,
                    *final(state),
                    *prim,
                    function_type,
                    kind,
                    lambda,
                ) && final(types)@.denotes(
                    lambda.type_id,
                    Type::Constrained(prim.partial, function_type),
                )
            },
{
    let function_type = types.intern_function_list(arguments, body.type_id);
    let ghost before = types@;
    let has_missing = exhaustiveness.missing.is_some();
    state.report_exhaustiveness(exhaustiveness);
    let ghost middle = *state;
    let kind = ExpressionKind::Lambda { binders, expression: body.expression };
    let lambda = add_inferred(state, types, prim, has_missing, function_type, kind);
    proof {
        lemma_function_extends(
            before,
            types@,
            function_type,
            arguments@,
            body.type_id,
        );
        lemma_extends_transitive(old(types)@, before, types@);
        assert(exhaustiveness_reported(*old(state), middle, exhaustiveness));
    }
    lambda
}

/// A function whose binders and body have been checked.
pub fn check_lambda(
    state: &mut CheckState,
    types: &mut Types,
    prim: &Prim,
    arguments: &Vec<TypeId>,
    binders: Vec<BinderId>,
    body: ElaboratedExpression,
    exhaustiveness: ExhaustivenessReport,
) -> (lambda: ElaboratedExpression)
    requires
        old(types)@.wf(),
        old(state).implications@.wf(),
        old(state).checked.tree@.expressions.len() <= u32::MAX,
        old(state).checked.evidence@.variables.len() <= u32::MAX,
    ensures
        final(types)@.wf(),
        extends(old(types)@, final(types)@),
        (final(types)@, lambda.type_id) == old(types)@.with_functions(arguments@, body.type_id),
        final(state).implications@.wf(),
        final(types)@.is_function(lambda.type_id, arguments@, body.type_id),
        checked_added(
            *old(state),
            *final(state),
            *prim,
            exhaustiveness,
            lambda.type_id,
            ExpressionKind::Lambda { binders, expression: body.expression },
            lambda,
        ),
{
    let function_type = types.intern_function_list(arguments, body.type_id);
    let has_missing = exhaustiveness.missing.is_some();
    state.report_exhaustiveness(exhaustiveness);
    let ghost middle = *state;
    let kind = ExpressionKind::Lambda { binders, expression: body.expression };
    let lambda = add_checked(state, prim, has_missing, function_type, kind);
    assert(exhaustiveness_reported(*old(state), middle, exhaustiveness));
    lambda
}

/// The expression was added once its exhaustiveness had been reported, and
/// evidence that it is partial had been asked for where patterns are missing.
pub open spec fn checked_added(
    before: CheckState,
    after: CheckState,
    prim: Prim,
    exhaustiveness: ExhaustivenessReport,
    type_id: TypeId,
    kind: ExpressionKind,
    added: ElaboratedExpression,
) -> bool {
    exists|middle: CheckState|
        {
            &&& #[trigger] exhaustiveness_reported(before, middle, exhaustiveness)
            &&& exhaustiveness.missing is None ==> plainly_added(
                middle,
                after,
                type_id,
                kind,
                added,
            )
            &&& exhaustiveness.missing is Some ==> exists|asked: CheckState, evidence| #[trigger]
                wanted(middle, asked, prim.partial, evidence) && plainly_added(
                    asked,
                    after,
                    type_id,
                    kind,
                    added,
                )
        }
}

// Case expressions

/// A branch of the source.
#[derive(Debug)]
pub struct CaseBranch {
    pub binders: Vec<SourceBinderId>,
    pub has_guarded: bool,
}

/// The binders of all branches with their columns, row by row.
pub open spec fn trunk_columns(branches: Seq<CaseBranch>) -> Seq<(usize, SourceBinderId)>
    decreases branches.len(),
{
    if branches.len() == 0 {
        Seq::empty()
    } else {
        trunk_columns(branches.drop_last()) + enumerated(branches.last().binders@)
    }
}

/// The binders whose types the columns of a case expression take part in.
pub fn instantiate_trunk_types(branches: &Vec<CaseBranch>) -> (columns: Vec<
    (usize, SourceBinderId),
>)
    ensures
        columns@ == trunk_columns(branches@),
{
    let mut columns: Vec<(usize, SourceBinderId)> = Vec::new();
    let mut index: usize = 0;
    assert(branches@.take(0) =~= Seq::empty());
    while index < branches.len()
        invariant
            index <= branches.len(),
            columns@ == trunk_columns(branches@.take(index as int)),
        decreases branches.len() - index,
    {
        assert(branches@.take(index + 1).drop_last() =~= branches@.take(index as int));
        push_enumerated(&mut columns, &branches[index].binders);
        index += 1;
    }
    assert(branches@.take(index as int) =~= branches@);
    columns
}

/// How the right sides of a case expression are checked: where its type is to be
/// found, they are inferred and then held against it.
pub fn branch_mode(mode: ExpressionMode, expected: TypeId) -> (guarded: GuardedExpressionMode)
    ensures
        guarded == (match mode {
            ExpressionMode::Infer => GuardedExpressionMode::Subsume { expected },
            ExpressionMode::Check { .. } => GuardedExpressionMode::Check { expected },
        }),
{
    match mode {
        ExpressionMode::Infer => GuardedExpressionMode::Subsume { expected },
        ExpressionMode::Check { .. } => GuardedExpressionMode::Check { expected },
    }
}

/// An alternative whose binders have been checked. An error stands in place of a
/// right side that is missing.
pub fn case_alternative(
    state: &mut CheckState,
    binders: Vec<BinderId>,
    guarded: Option<GuardedExpression>,
    expected: TypeId,
) -> (alternative: CaseAlternative)
    requires
        old(state).checked.tree@.expressions.len() <= u32::MAX,
    ensures
        alternative.binders == binders,
        match guarded {
            Some(guarded) => alternative.guarded_expression == guarded && *final(state) == *old(
                state,
            ),
            None => {
                let missing = old(state).checked.tree@.next_expression();
                let alternatives = alternative.guarded_expression.alternatives@;
                &&& plainly_added(
                    *old(state),
                    *final(state),
                    expected,
                    ExpressionKind::Error,
                    ElaboratedExpression { type_id: expected, expression: missing },
                )
                &&& alternatives.len() == 1
                &&& alternatives[0].pattern_guards@.len() == 0
                &&& is_plain(alternatives[0].where_expression, missing)
            },
        },
{
    let guarded_expression = match guarded {
        Some(guarded) => guarded,
        None => {
            let expression = state.allocate_error_expression(expected);
            GuardedExpression::unconditional(WhereExpression::new(expression))
        },
    };
    CaseAlternative { binders, guarded_expression }
}

/// A case expression whose scrutinees have been inferred and whose alternatives
/// have been checked against the type expected.
pub fn case_of_core(
    state: &mut CheckState,
    types: &mut Types,
    prim: &Prim,
    mode: ExpressionMode,
    expected: TypeId,
    scrutinees: Vec<ExpressionId>,
    alternatives: Vec<CaseAlternative>,
    exhaustiveness: ExhaustivenessReport,
) -> (case: ElaboratedExpression)
    requires
        old(types)@.wf(),
        old(state).implications@.wf(),
        old(state).checked.tree@.expressions.len() < u32::MAX,
        old(state).checked.evidence@.variables.len() <= u32::MAX,
        old(state).checked.evidence@.binders.len() <= u32::MAX,
    ensures
        final(types)@.wf(),
        extends(old(types)@, final(types)@),
        final(types)@ == (if mode is Infer && exhaustiveness.missing is Some {
            old(types)@.with_type(Type::Constrained(prim.partial, expected))
        } else {
            old(types)@
        }),
        mode is Check || exhaustiveness.missing is None ==> checked_added(
            *old(state),
            *final(state),
            *prim,
            exhaustiveness,
            expected,
            ExpressionKind::Case { scrutinees, alternatives },
            case,
        ),
        mode is Infer && exhaustiveness.missing is Some ==> {
            &&& final(types)@.denotes(case.type_id, Type::Constrained(prim.partial, expected))
            &&& exists|middle: CheckState| #[trigger]
                exhaustiveness_reported(*old(state), middle, exhaustiveness) && partially_added(
                    middle,
                    *final(state),
                    *prim,
                    expected,
                    ExpressionKind::Case { scrutinees, alternatives },
                    case,
                )
        },
{
    let has_missing = exhaustiveness.missing.is_some();
    state.report_exhaustiveness(exhaustiveness);
    let ghost middle = *state;
    let kind = ExpressionKind::Case { scrutinees, alternatives };
    assert(exhaustiveness_reported(*old(state), middle, exhaustiveness));
    match mode {
        ExpressionMode::Infer => add_inferred(state, types, prim, has_missing, expected, kind),
        ExpressionMode::Check { .. } => add_checked(state, prim, has_missing, expected, kind),
    }
}

} // verus!
