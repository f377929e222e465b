//! Function application.

use super::super::error::ErrorKind;
use super::super::evidence::EvidenceVarId;
use super::super::lowering::{SourceExpressionId, SourceTypeId};
use super::super::state::{
    all_wanted, lemma_none_more, lemma_one_more_wanted, reported, unification_added, wanted,
    with_tree, CheckState, UnificationEntry, UnificationState,
};
use super::super::tree::{Expression, ExpressionId, ExpressionKind, Tree};
use super::super::types::{
    extends, group_extends, ForallBinder, Name, Prim, Type, TypeId, Types,
};
use crate::collections::copy_all;
use vstd::prelude::*;

verus! {

/// An expression with its type.
#[derive(Clone, Copy, Debug, PartialEq, Eq, Structural)]
pub struct ElaboratedExpression {
    pub type_id: TypeId,
    pub expression: ExpressionId,
}

/// A function type that has been found behind implicit parameters.
#[derive(Debug)]
pub struct UnanchoredApplication {
    pub implicit: Vec<ImplicitApplication>,
    pub argument: TypeId,
    pub result: TypeId,
}

/// An application that the source does not write down.
#[allow(inconsistent_fields)]
#[derive(Clone, Copy, Debug, PartialEq, Eq, Structural)]
pub enum ImplicitApplication {
    Type { result: TypeId },
    Evidence { evidence: EvidenceVarId, constraint: TypeId, result: TypeId },
}

/// An implicit application for which no evidence has been asked yet.
#[allow(inconsistent_fields)]
#[derive(Clone, Copy, Debug, PartialEq, Eq, Structural)]
pub enum PendingImplicitApplication {
    Type { result: TypeId },
    Constraint { constraint: TypeId, result: TypeId },
}

/// What can be done with a function.
#[allow(inconsistent_fields)]
#[derive(Clone, Copy, Debug, PartialEq, Eq, Structural)]
pub enum CallableAnalysis {
    Forall { binder: ForallBinder, body: TypeId },
    Constraint { constraint: TypeId, result: TypeId },
    Function { argument: TypeId, result: TypeId },
    NotCallable,
}

// Trees

/// The later tree has all expressions of the earlier one, and the same of all
/// else.
pub open spec fn tree_extends(before: Tree, after: Tree) -> bool {
    &&& before.expressions.is_prefix_of(after.expressions)
    &&& after == (Tree { expressions: after.expressions, ..before })
}

/// The later state differs from the earlier one in further expressions only.
pub open spec fn only_expressions_added(before: CheckState, after: CheckState) -> bool {
    &&& after == with_tree(before, after.checked.tree)
    &&& tree_extends(before.checked.tree@, after.checked.tree@)
}

/// An expression of the type and kind stands at the position.
pub open spec fn stands(
    tree: Tree,
    id: ExpressionId,
    type_id: TypeId,
    kind: ExpressionKind,
) -> bool {
    id.raw < tree.expressions.len() && tree.expressions[id.raw as int] == (Expression {
        type_id,
        kind,
    })
}

/// Expressions stay where they are.
pub broadcast proof fn lemma_stands_extends(
    before: Tree,
    after: Tree,
    id: ExpressionId,
    type_id: TypeId,
    kind: ExpressionKind,
)
    requires
        #[trigger] tree_extends(before, after),
        #[trigger] stands(before, id, type_id, kind),
    ensures
        stands(after, id, type_id, kind),
{
}

pub broadcast proof fn lemma_tree_extends_transitive(first: Tree, second: Tree, third: Tree)
    requires
        #[trigger] tree_extends(first, second),
        #[trigger] tree_extends(second, third),
    ensures
        tree_extends(first, third),
{
    assert forall|i: int| 0 <= i < first.expressions.len() implies first.expressions[i]
        == third.expressions[i] by {
        assert(first.expressions[i] == second.expressions[i]);
    }
}

/// The outer expression is the inner one under implicit applications. Those of
/// types leave no trace in the tree.
pub open spec fn implicitly_applied(
    tree: Tree,
    inner: ExpressionId,
    implicit: Seq<ImplicitApplication>,
    outer: ExpressionId,
) -> bool
    decreases implicit.len(),
{
    if implicit.len() == 0 {
        outer == inner
    } else {
        match implicit.last() {
            ImplicitApplication::Type { .. } => implicitly_applied(
                tree,
                inner,
                implicit.drop_last(),
                outer,
            ),
            ImplicitApplication::Evidence { evidence, constraint, result } => {
                &&& outer.raw < tree.expressions.len()
                &&& tree.expressions[outer.raw as int].type_id == result
                &&& tree.expressions[outer.raw as int].kind
                    matches ExpressionKind::EvidenceApplication {
                    function,
                    evidence: applied,
                    constraint: satisfied,
                }
                &&& applied == evidence
                &&& satisfied == constraint
                &&& implicitly_applied(tree, inner, implicit.drop_last(), function)
            },
        }
    }
}

/// Implicit applications stay in a tree that is extended.
pub proof fn lemma_implicitly_applied_extends(
    before: Tree,
    after: Tree,
    inner: ExpressionId,
    implicit: Seq<ImplicitApplication>,
    outer: ExpressionId,
)
    requires
        tree_extends(before, after),
        implicitly_applied(before, inner, implicit, outer),
    ensures
        implicitly_applied(after, inner, implicit, outer),
    decreases implicit.len(),
{
    if implicit.len() > 0 {
        match implicit.last() {
            ImplicitApplication::Type { .. } => {
                lemma_implicitly_applied_extends(
                    before,
                    after,
                    inner,
                    implicit.drop_last(),
                    outer,
                );
            },
            ImplicitApplication::Evidence { .. } => {
                if let ExpressionKind::EvidenceApplication { function, .. } =
                    before.expressions[outer.raw as int].kind {
                    lemma_implicitly_applied_extends(
                        before,
                        after,
                        inner,
                        implicit.drop_last(),
                        function,
                    );
                }
            },
        }
    }
}

/// How many expressions implicit applications take: one for each that is to
/// evidence.
pub open spec fn evidence_nodes(implicit: Seq<ImplicitApplication>) -> nat
    decreases implicit.len(),
{
    if implicit.len() == 0 {
        0
    } else {
        evidence_nodes(implicit.drop_last()) + (if implicit.last() is Evidence {
            1nat
        } else {
            0
        })
    }
}

/// A part of the implicit applications takes no more expressions than all of them.
proof fn lemma_evidence_nodes(implicit: Seq<ImplicitApplication>, count: int)
    requires
        0 <= count <= implicit.len(),
    ensures
        evidence_nodes(implicit.take(count)) <= evidence_nodes(implicit),
    decreases implicit.len() - count,
{
    if count < implicit.len() {
        lemma_evidence_nodes(implicit, count + 1);
        assert(implicit.take(count + 1).drop_last() =~= implicit.take(count));
    } else {
        assert(implicit.take(count) =~= implicit);
    }
}

/// So many expressions are new.
pub open spec fn grown_by(before: CheckState, after: CheckState, count: nat) -> bool {
    &&& only_expressions_added(before, after)
    &&& after.checked.tree@.expressions.len() == before.checked.tree@.expressions.len() + count
}

/// The type of an expression under implicit applications.
pub open spec fn implicit_type(type_id: TypeId, implicit: Seq<ImplicitApplication>) -> TypeId {
    if implicit.len() == 0 {
        type_id
    } else {
        match implicit.last() {
            ImplicitApplication::Type { result } => result,
            ImplicitApplication::Evidence { result, .. } => result,
        }
    }
}

/// An expression that was allocated with its type.
pub fn allocate_expression(state: &mut CheckState, type_id: TypeId, kind: ExpressionKind) -> (
elaborated: ElaboratedExpression)
    requires
        old(state).checked.tree@.expressions.len() <= u32::MAX,
    ensures
        elaborated.type_id == type_id,
        elaborated.expression == old(state).checked.tree@.next_expression(),
        final(state).checked.tree@ == old(state).checked.tree@.with_expression(type_id, kind),
        only_expressions_added(*old(state), *final(state)),
        stands(final(state).checked.tree@, elaborated.expression, type_id, kind),
{
    let expression = state.allocate_expression(type_id, kind);
    ElaboratedExpression { type_id, expression }
}

/// An expression in place of one that is missing or wrong, with its type.
pub fn allocate_error_expression(state: &mut CheckState, type_id: TypeId) -> (elaborated:
    ElaboratedExpression)
    requires
        old(state).checked.tree@.expressions.len() <= u32::MAX,
    ensures
        elaborated.type_id == type_id,
        elaborated.expression == old(state).checked.tree@.next_expression(),
        final(state).checked.tree@ == old(state).checked.tree@.with_expression(
            type_id,
            ExpressionKind::Error,
        ),
        only_expressions_added(*old(state), *final(state)),
        stands(
            final(state).checked.tree@,
            elaborated.expression,
            type_id,
            ExpressionKind::Error,
        ),
{
    allocate_expression(state, type_id, ExpressionKind::Error)
}

// Analysis of functions

/// What the head of a function type tells.
#[allow(inconsistent_fields)]
#[derive(Clone, Copy, Debug, PartialEq, Eq, Structural)]
pub enum CallableHead {
    Analysed(CallableAnalysis),
    /// The unification variable has to be solved to the function type.
    Solve { unification: u32, function: TypeId, argument: TypeId, result: TypeId },
    /// The applied type has to be expanded.
    Applied { function: TypeId, result: TypeId },
}

/// What the constructor of an applied type tells.
#[derive(Clone, Copy, Debug, PartialEq, Eq, Structural)]
pub enum CallableConstructor {
    Analysed(CallableAnalysis),
    /// The unification variable has to be solved to the function constructor.
    Solve { unification: u32, argument: TypeId, result: TypeId },
}

/// Looks at a function type whose head has been expanded. A unification variable
/// is to become a function type between two new ones.
pub fn analyse_callable_head(
    state: &mut CheckState,
    types: &mut Types,
    prim: &Prim,
    function: TypeId,
) -> (head: CallableHead)
    requires
        old(state).unifications.wf(),
        !old(state).unifications.is_frozen(),
        old(state).unifications@.len() + 2 <= u32::MAX,
        old(types)@.wf(),
        old(types)@.has_type(function),
        forall|binder, body|
            #[trigger] old(types)@.denotes(function, Type::Forall(binder, body)) ==> binder.raw
                < old(types)@.binders.len(),
    ensures
        final(types)@.wf(),
        extends(old(types)@, final(types)@),
        match old(types)@.type_at(function) {
            Type::Unification(unification) => {
                let kind = prim.t;
                let fresh = UnificationEntry {
                    depth: old(state).depth,
                    kind,
                    state: UnificationState::Unsolved,
                };
                let count = old(state).unifications@.len();
                &&& *final(state) == (CheckState {
                    unifications: final(state).unifications,
                    ..*old(state)
                })
                &&& final(state).unifications.wf()
                &&& final(state).unifications@ == old(state).unifications@.push(fresh).push(fresh)
                &&& head matches CallableHead::Solve {
                    unification: solved,
                    function: solution,
                    argument,
                    result,
                }
                &&& solved == unification
                &&& final(types)@.denotes(argument, Type::Unification(count as u32))
                &&& final(types)@.denotes(result, Type::Unification((count + 1) as u32))
                &&& final(types)@.denotes(solution, Type::Function(argument, result))
            },
            t => {
                &&& *final(state) == *old(state)
                &&& final(types)@ == old(types)@
                &&& head == (match t {
                    Type::Function(argument, result) => CallableHead::Analysed(
                        CallableAnalysis::Function { argument, result },
                    ),
                    Type::Forall(binder, body) => CallableHead::Analysed(
                        CallableAnalysis::Forall {
                            binder: old(types)@.binders[binder.raw as int],
                            body,
                        },
                    ),
                    Type::Constrained(constraint, result) => CallableHead::Analysed(
                        CallableAnalysis::Constraint { constraint, result },
                    ),
                    Type::Application(function, result) => CallableHead::Applied {
                        function,
                        result,
                    },
                    _ => CallableHead::Analysed(CallableAnalysis::NotCallable),
                })
            },
        },
{
    broadcast use group_extends;

    match types.lookup_type(function) {
        Type::Function(argument, result) => CallableHead::Analysed(
            CallableAnalysis::Function { argument, result },
        ),
        Type::Unification(unification) => {
            let argument = state.fresh_unification(types, prim.t);
            let ghost first = types@;
            let result = state.fresh_unification(types, prim.t);
            let ghost second = types@;
            let function = types.intern_function(argument, result);
            proof {
                let count = old(state).unifications@.len() as u32;
                assert(first.denotes(argument, Type::Unification(count)));
                assert(second.denotes(result, Type::Unification((count + 1) as u32)));
            }
            CallableHead::Solve { unification, function, argument, result }
        },
        Type::Forall(binder_id, body) => {
            assert(types@.denotes(function, Type::Forall(binder_id, body)));
            let binder = types.lookup_forall_binder(binder_id);
            CallableHead::Analysed(CallableAnalysis::Forall { binder, body })
        },
        Type::Constrained(constraint, result) => CallableHead::Analysed(
            CallableAnalysis::Constraint { constraint, result },
        ),
        Type::Application(function, result) => CallableHead::Applied { function, result },
        _ => CallableHead::Analysed(CallableAnalysis::NotCallable),
    }
}

/// The constructor and the first argument of an applied type that has been
/// expanded.
pub fn analyse_applied_function(types: &Types, function: TypeId) -> (applied: Option<
    (TypeId, TypeId),
>)
    requires
        types@.has_type(function),
    ensures
        applied == (match types@.type_at(function) {
            Type::Application(constructor, argument) => Some((constructor, argument)),
            _ => None,
        }),
{
    match types.lookup_type(function) {
        Type::Application(constructor, argument) => Some((constructor, argument)),
        _ => None,
    }
}

/// Looks at the constructor of an applied type, which has been expanded.
pub fn analyse_callable_constructor(
    types: &Types,
    prim: &Prim,
    constructor: TypeId,
    argument: TypeId,
    result: TypeId,
) -> (analysis: CallableConstructor)
    requires
        types@.has_type(constructor),
    ensures
        analysis == (if constructor == prim.function {
            CallableConstructor::Analysed(CallableAnalysis::Function { argument, result })
        } else {
            match types@.type_at(constructor) {
                Type::Unification(unification) => CallableConstructor::Solve {
                    unification,
                    argument,
                    result,
                },
                _ => CallableConstructor::Analysed(CallableAnalysis::NotCallable),
            }
        }),
{
    if constructor == prim.function {
        return CallableConstructor::Analysed(CallableAnalysis::Function { argument, result });
    }
    match types.lookup_type(constructor) {
        Type::Unification(unification) => CallableConstructor::Solve {
            unification,
            argument,
            result,
        },
        _ => CallableConstructor::Analysed(CallableAnalysis::NotCallable),
    }
}

/// What follows where the quantifiers of a callable type are instantiated
/// together.
#[derive(Debug)]
pub enum CallableStep {
    /// One more binder is instantiated: the bindings so far are substituted in its
    /// kind, and what it binds in comes next.
    Bind { binder: ForallBinder, body: TypeId },
    /// There is no further binder: the bindings are substituted in the type.
    Substitute { bindings: Vec<(Name, TypeId)> },
}

/// What follows once some quantifiers of a callable type are bound. The type
/// behind them has been expanded.
///
/// Instantiation stops at a visible binder so that a following type application,
/// such as `f @Int`, can still supply its argument.
pub fn callable_forall_step(
    types: &Types,
    bound: &Vec<(Name, TypeId)>,
    expanded: TypeId,
) -> (step: CallableStep)
    requires
        types@.has_type(expanded),
        forall|binder, inner|
            #[trigger] types@.denotes(expanded, Type::Forall(binder, inner)) ==> binder.raw
                < types@.binders.len(),
    ensures
        match types@.type_at(expanded) {
            Type::Forall(binder, inner) if !types@.binders[binder.raw as int].visible => step
                == (CallableStep::Bind { binder: types@.binders[binder.raw as int], body: inner }),
            _ => step matches CallableStep::Substitute { bindings } && bindings@ == bound@,
        },
{
    match types.lookup_type(expanded) {
        Type::Forall(binder_id, body) => {
            assert(types@.denotes(expanded, Type::Forall(binder_id, body)));
            let binder = types.lookup_forall_binder(binder_id);
            if binder.visible {
                CallableStep::Substitute { bindings: copy_all(bound) }
            } else {
                CallableStep::Bind { binder, body }
            }
        },
        _ => CallableStep::Substitute { bindings: copy_all(bound) },
    }
}

/// Binds a quantifier of a callable type to a type that is still to be found. The
/// kind of the binder has been expanded.
pub fn bind_callable_forall(
    state: &mut CheckState,
    types: &mut Types,
    bound: &mut Vec<(Name, TypeId)>,
    binder: ForallBinder,
    kind: TypeId,
)
    requires
        old(state).unifications.wf(),
        !old(state).unifications.is_frozen(),
        old(state).unifications@.len() < u32::MAX,
        old(types)@.wf(),
    ensures
        unification_added(*old(state), *final(state), kind),
        final(types)@.wf(),
        extends(old(types)@, final(types)@),
        ({
            let variable = Type::Unification(old(state).unifications@.len() as u32);
            &&& final(types)@ == old(types)@.with_type(variable)
            &&& final(types)@.denotes(final(types)@.identity(variable), variable)
            &&& final(bound)@ == old(bound)@.push(
                (binder.name, final(types)@.identity(variable)),
            )
        }),
{
    let argument = state.fresh_unification(types, kind);
    bound.push((binder.name, argument));
}

// Evidence

/// Asks for evidence of a constraint and applies an expression to it.
pub fn apply_evidence(
    state: &mut CheckState,
    expression: ElaboratedExpression,
    constraint: TypeId,
    result: TypeId,
) -> (applied: ElaboratedExpression)
    requires
        old(state).implications@.wf(),
        old(state).checked.evidence@.variables.len() <= u32::MAX,
        old(state).checked.tree@.expressions.len() <= u32::MAX,
    ensures
        evidence_applied(*old(state), *final(state), expression, constraint, result, applied),
        final(state).implications@.wf(),
{
    let evidence = state.push_wanted(constraint);
    let kind = ExpressionKind::EvidenceApplication {
        function: expression.expression,
        evidence,
        constraint,
    };
    let ghost asked = *state;
    let applied = allocate_expression(state, result, kind);
    assert(wanted(*old(state), asked, constraint, evidence));
    applied
}

/// Evidence of the constraint was asked for, and the expression was applied to
/// it.
pub open spec fn evidence_applied(
    before: CheckState,
    after: CheckState,
    expression: ElaboratedExpression,
    constraint: TypeId,
    result: TypeId,
    applied: ElaboratedExpression,
) -> bool {
    exists|asked: CheckState, evidence: EvidenceVarId|
        {
            &&& #[trigger] wanted(before, asked, constraint, evidence)
            &&& only_expressions_added(asked, after)
            &&& after.checked.tree@ == before.checked.tree@.with_expression(
                result,
                ExpressionKind::EvidenceApplication {
                    function: expression.expression,
                    evidence,
                    constraint,
                },
            )
            &&& applied == (ElaboratedExpression {
                type_id: result,
                expression: before.checked.tree@.next_expression(),
            })
        }
}

/// What has to be done to an expression before it can be used as it is.
#[allow(inconsistent_fields)]
#[derive(Clone, Copy, Debug, PartialEq, Eq, Structural)]
pub enum InstantiationStep {
    /// The binder and those that follow have to be instantiated.
    Instantiate { binder: ForallBinder, body: TypeId },
    /// Evidence has been applied; there may be more to do.
    Applied(ElaboratedExpression),
    Done,
}

/// One step of instantiating an expression whose type has been expanded.
pub fn instantiate_expression_step(
    state: &mut CheckState,
    types: &Types,
    expression: ElaboratedExpression,
    expanded: TypeId,
) -> (step: InstantiationStep)
    requires
        old(state).implications@.wf(),
        old(state).checked.evidence@.variables.len() <= u32::MAX,
        old(state).checked.tree@.expressions.len() <= u32::MAX,
        types@.has_type(expanded),
        forall|binder, body|
            #[trigger] types@.denotes(expanded, Type::Forall(binder, body)) ==> binder.raw
                < types@.binders.len(),
    ensures
        final(state).implications@.wf(),
        match types@.type_at(expanded) {
            Type::Forall(binder, body) => step == (InstantiationStep::Instantiate {
                binder: types@.binders[binder.raw as int],
                body,
            }) && *final(state) == *old(state),
            Type::Constrained(constraint, result) => step matches InstantiationStep::Applied(applied)
                && evidence_applied(
                *old(state),
                *final(state),
                expression,
                constraint,
                result,
                applied,
            ),
            _ => step == InstantiationStep::Done && *final(state) == *old(state),
        },
{
    match types.lookup_type(expanded) {
        Type::Forall(binder_id, body) => {
            assert(types@.denotes(expanded, Type::Forall(binder_id, body)));
            let binder = types.lookup_forall_binder(binder_id);
            InstantiationStep::Instantiate { binder, body }
        },
        Type::Constrained(constraint, result) => InstantiationStep::Applied(
            apply_evidence(state, expression, constraint, result),
        ),
        _ => InstantiationStep::Done,
    }
}

/// One step of asking for the evidence that an expression needs. Its type has
/// been expanded.
pub fn collect_expression_wanteds_step(
    state: &mut CheckState,
    types: &Types,
    expression: ElaboratedExpression,
    expanded: TypeId,
) -> (applied: Option<ElaboratedExpression>)
    requires
        old(state).implications@.wf(),
        old(state).checked.evidence@.variables.len() <= u32::MAX,
        old(state).checked.tree@.expressions.len() <= u32::MAX,
        types@.has_type(expanded),
    ensures
        final(state).implications@.wf(),
        match types@.type_at(expanded) {
            Type::Constrained(constraint, result) => applied is Some && evidence_applied(
                *old(state),
                *final(state),
                expression,
                constraint,
                result,
                applied->0,
            ),
            _ => applied is None && *final(state) == *old(state),
        },
{
    match types.lookup_type(expanded) {
        Type::Constrained(constraint, result) => Some(
            apply_evidence(state, expression, constraint, result),
        ),
        _ => None,
    }
}

/// The constraints of pending applications, in order.
pub open spec fn pending_constraints(pending: Seq<PendingImplicitApplication>) -> Seq<TypeId>
    decreases pending.len(),
{
    if pending.len() == 0 {
        Seq::empty()
    } else {
        let before = pending_constraints(pending.drop_last());
        match pending.last() {
            PendingImplicitApplication::Type { .. } => before,
            PendingImplicitApplication::Constraint { constraint, .. } => before.push(constraint),
        }
    }
}

/// Pending applications with evidence numbered from `first` on.
pub open spec fn with_evidence(pending: Seq<PendingImplicitApplication>, first: nat) -> Seq<
    ImplicitApplication,
>
    decreases pending.len(),
{
    if pending.len() == 0 {
        Seq::empty()
    } else {
        let rest = pending.drop_last();
        with_evidence(rest, first).push(
            match pending.last() {
                PendingImplicitApplication::Type { result } => ImplicitApplication::Type { result },
                PendingImplicitApplication::Constraint { constraint, result } => {
                    ImplicitApplication::Evidence {
                        evidence: EvidenceVarId {
                            raw: (first + pending_constraints(rest).len()) as u32,
                        },
                        constraint,
                        result,
                    }
                },
            },
        )
    }
}

/// Asks for the evidence of all pending applications, in order.
pub fn resolve_pending(state: &mut CheckState, pending: &Vec<PendingImplicitApplication>) -> (
implicit: Vec<ImplicitApplication>)
    requires
        old(state).implications@.wf(),
        old(state).checked.evidence@.variables.len() + pending@.len() <= u32::MAX,
    ensures
        implicit@ == with_evidence(pending@, old(state).checked.evidence@.variables.len()),
        all_wanted(*old(state), *final(state), pending_constraints(pending@)),
{
    let mut implicit: Vec<ImplicitApplication> = Vec::new();
    let ghost first = state.checked.evidence@.variables.len();
    let mut index: usize = 0;
    assert(pending@.take(0) =~= Seq::empty());
    proof {
        lemma_none_more(*state);
    }
    while index < pending.len()
        invariant
            index <= pending.len(),
            old(state).implications@.wf(),
            first == old(state).checked.evidence@.variables.len(),
            first + pending@.len() <= u32::MAX,
            pending_constraints(pending@.take(index as int)).len() <= index,
            implicit@ == with_evidence(pending@.take(index as int), first),
            all_wanted(
                *old(state),
                *state,
                pending_constraints(pending@.take(index as int)),
            ),
        decreases pending.len() - index,
    {
        let ghost taken = pending@.take(index + 1);
        let ghost before = pending@.take(index as int);
        let ghost middle = *state;
        assert(taken.drop_last() =~= before);
        match pending[index] {
            PendingImplicitApplication::Type { result } => {
                implicit.push(ImplicitApplication::Type { result });
            },
            PendingImplicitApplication::Constraint { constraint, result } => {
                let evidence = state.push_wanted(constraint);
                implicit.push(ImplicitApplication::Evidence { evidence, constraint, result });
                proof {
                    lemma_one_more_wanted(
                        *old(state),
                        middle,
                        *state,
                        pending_constraints(before),
                        constraint,
                        evidence,
                    );
                }
            },
        }
        index += 1;
    }
    assert(pending@.take(index as int) =~= pending@);
    implicit
}

/// What has to be done to find the argument that a function takes.
#[allow(inconsistent_fields)]
#[derive(Debug)]
pub enum UnanchoredStep {
    /// The binder and those that follow have to be instantiated; the result is pending.
    Instantiate { binder: ForallBinder, body: TypeId },
    /// The rest of the function's type has to be analysed.
    Analyse { function: TypeId },
    Applied { application: UnanchoredApplication },
    /// It is no function.
    NotCallable,
}

/// One step of finding the argument that a function takes, once its type has been
/// analysed. Evidence is asked for only where there is such an argument.
pub fn check_unanchored_application_step(
    state: &mut CheckState,
    pending: &mut Vec<PendingImplicitApplication>,
    analysis: CallableAnalysis,
) -> (step: UnanchoredStep)
    requires
        old(state).implications@.wf(),
        old(state).checked.evidence@.variables.len() + old(pending)@.len() <= u32::MAX,
    ensures
        match analysis {
            CallableAnalysis::Forall { binder, body } => {
                &&& step == (UnanchoredStep::Instantiate { binder, body })
                &&& *final(state) == *old(state)
                &&& final(pending)@ == old(pending)@
            },
            CallableAnalysis::Constraint { constraint, result } => {
                &&& step == (UnanchoredStep::Analyse { function: result })
                &&& *final(state) == *old(state)
                &&& final(pending)@ == old(pending)@.push(
                    PendingImplicitApplication::Constraint { constraint, result },
                )
            },
            CallableAnalysis::Function { argument, result } => {
                &&& step matches UnanchoredStep::Applied { application }
                &&& application.argument == argument
                &&& application.result == result
                &&& application.implicit@ == with_evidence(
                    old(pending)@,
                    old(state).checked.evidence@.variables.len(),
                )
                &&& all_wanted(*old(state), *final(state), pending_constraints(old(pending)@))
            },
            CallableAnalysis::NotCallable => {
                &&& step is NotCallable
                &&& *final(state) == *old(state)
                &&& final(pending)@ == old(pending)@
            },
        },
{
    match analysis {
        CallableAnalysis::Forall { binder, body } => UnanchoredStep::Instantiate { binder, body },
        CallableAnalysis::Constraint { constraint, result } => {
            pending.push(PendingImplicitApplication::Constraint { constraint, result });
            UnanchoredStep::Analyse { function: result }
        },
        CallableAnalysis::Function { argument, result } => {
            let implicit = resolve_pending(state, pending);
            UnanchoredStep::Applied {
                application: UnanchoredApplication { implicit, argument, result },
            }
        },
        CallableAnalysis::NotCallable => UnanchoredStep::NotCallable,
    }
}

// Materialisation

/// Puts the implicit applications of an expression into the tree.
pub fn materialize_implicit_applications(
    state: &mut CheckState,
    expression: ElaboratedExpression,
    implicit: &Vec<ImplicitApplication>,
) -> (applied: ElaboratedExpression)
    requires
        old(state).checked.tree@.expressions.len() + evidence_nodes(implicit@) <= u32::MAX,
    ensures
        grown_by(*old(state), *final(state), evidence_nodes(implicit@)),
        implicitly_applied(
            final(state).checked.tree@,
            expression.expression,
            implicit@,
            applied.expression,
        ),
        applied.type_id == implicit_type(expression.type_id, implicit@),
{
    let mut applied = expression;
    let mut index: usize = 0;
    assert(implicit@.take(0) =~= Seq::empty());
    while index < implicit.len()
        invariant
            index <= implicit.len(),
            grown_by(*old(state), *state, evidence_nodes(implicit@.take(index as int))),
            old(state).checked.tree@.expressions.len() + evidence_nodes(implicit@) <= u32::MAX,
            implicitly_applied(
                state.checked.tree@,
                expression.expression,
                implicit@.take(index as int),
                applied.expression,
            ),
            applied.type_id == implicit_type(expression.type_id, implicit@.take(index as int)),
        decreases implicit.len() - index,
    {
        assert(implicit@.take(index + 1).drop_last() =~= implicit@.take(index as int));
        proof {
            lemma_evidence_nodes(implicit@, index + 1);
        }
        let ghost before = state.checked.tree@;
        let ghost inner = applied.expression;
        match implicit[index] {
            ImplicitApplication::Type { result } => {
                applied.type_id = result;
            },
            ImplicitApplication::Evidence { evidence, constraint, result } => {
                let kind = ExpressionKind::EvidenceApplication {
                    function: applied.expression,
                    evidence,
                    constraint,
                };
                applied = allocate_expression(state, result, kind);
                proof {
                    lemma_implicitly_applied_extends(
                        before,
                        state.checked.tree@,
                        expression.expression,
                        implicit@.take(index as int),
                        inner,
                    );
                    lemma_tree_extends_transitive(
                        old(state).checked.tree@,
                        before,
                        state.checked.tree@,
                    );
                }
            },
        }
        index += 1;
    }
    assert(implicit@.take(index as int) =~= implicit@);
    applied
}

/// The expression is an application of the function, under implicit
/// applications, to the argument.
pub open spec fn applied_to(
    tree: Tree,
    function: ExpressionId,
    implicit: Seq<ImplicitApplication>,
    argument: ExpressionId,
    application: ExpressionId,
    result: TypeId,
) -> bool {
    &&& application.raw < tree.expressions.len()
    &&& tree.expressions[application.raw as int].type_id == result
    &&& tree.expressions[application.raw as int].kind matches ExpressionKind::TermApplication {
        function: head,
        argument: last,
    }
    &&& last == argument
    &&& implicitly_applied(tree, function, implicit, head)
}

/// Applications stay in a tree that is extended.
pub proof fn lemma_applied_to_extends(
    before: Tree,
    after: Tree,
    function: ExpressionId,
    implicit: Seq<ImplicitApplication>,
    argument: ExpressionId,
    application: ExpressionId,
    result: TypeId,
)
    requires
        tree_extends(before, after),
        applied_to(before, function, implicit, argument, application, result),
    ensures
        applied_to(after, function, implicit, argument, application, result),
{
    if let ExpressionKind::TermApplication { function: head, .. } =
        before.expressions[application.raw as int].kind {
        lemma_implicitly_applied_extends(before, after, function, implicit, head);
    }
}

/// Puts an application with its implicit applications into the tree.
pub fn materialize_application(
    state: &mut CheckState,
    function: ElaboratedExpression,
    implicit: &Vec<ImplicitApplication>,
    result: TypeId,
    argument: ElaboratedExpression,
) -> (application: ElaboratedExpression)
    requires
        old(state).checked.tree@.expressions.len() + evidence_nodes(implicit@) + 1 <= u32::MAX,
    ensures
        grown_by(*old(state), *final(state), evidence_nodes(implicit@) + 1),
        application.type_id == result,
        applied_to(
            final(state).checked.tree@,
            function.expression,
            implicit@,
            argument.expression,
            application.expression,
            result,
        ),
{
    let head = materialize_implicit_applications(state, function, implicit);
    let ghost before = state.checked.tree@;
    let kind = ExpressionKind::TermApplication {
        function: head.expression,
        argument: argument.expression,
    };
    let application = allocate_expression(state, result, kind);
    proof {
        lemma_implicitly_applied_extends(
            before,
            state.checked.tree@,
            function.expression,
            implicit@,
            head.expression,
        );
        lemma_tree_extends_transitive(old(state).checked.tree@, before, state.checked.tree@);
    }
    application
}

// Applications of the source

/// An argument of the source.
#[derive(Clone, Copy, Debug, PartialEq, Eq, Structural)]
pub enum ExpressionArgument {
    Type(Option<SourceTypeId>),
    Term(Option<SourceExpressionId>),
}

/// What has to be done for an argument.
#[derive(Clone, Copy, Debug, PartialEq, Eq, Structural)]
pub enum ArgumentRequest {
    ApplyType(SourceTypeId),
    ApplyTerm(SourceExpressionId),
    /// The argument is missing; this stands for the whole application.
    Error(ElaboratedExpression),
}

/// Begins the application of a function to an argument.
pub fn begin_application(
    state: &mut CheckState,
    types: &mut Types,
    argument: ExpressionArgument,
) -> (request: ArgumentRequest)
    requires
        old(types)@.wf(),
        old(state).checked.tree@.expressions.len() <= u32::MAX,
    ensures
        final(types)@.wf(),
        extends(old(types)@, final(types)@),
        final(types)@ == (match argument {
            ExpressionArgument::Type(None) => old(types)@.with_unknown("missing type argument"@).0,
            ExpressionArgument::Term(None) => old(types)@.with_unknown("missing term argument"@).0,
            _ => old(types)@,
        }),
        match argument {
            ExpressionArgument::Type(Some(id)) => request == ArgumentRequest::ApplyType(id)
                && *final(state) == *old(state),
            ExpressionArgument::Term(Some(id)) => request == ArgumentRequest::ApplyTerm(id)
                && *final(state) == *old(state),
            ExpressionArgument::Type(None) => request matches ArgumentRequest::Error(error)
                && error_allocated(
                *old(state),
                *final(state),
                error,
            ) && final(types)@.is_unknown(error.type_id, "missing type argument"@),
            ExpressionArgument::Term(None) => request matches ArgumentRequest::Error(error)
                && error_allocated(
                *old(state),
                *final(state),
                error,
            ) && final(types)@.is_unknown(error.type_id, "missing term argument"@),
        },
{
    match argument {
        ExpressionArgument::Type(Some(id)) => ArgumentRequest::ApplyType(id),
        ExpressionArgument::Term(Some(id)) => ArgumentRequest::ApplyTerm(id),
        ExpressionArgument::Type(None) => {
            let type_id = types.unknown("missing type argument");
            ArgumentRequest::Error(allocate_error_expression(state, type_id))
        },
        ExpressionArgument::Term(None) => {
            let type_id = types.unknown("missing term argument");
            ArgumentRequest::Error(allocate_error_expression(state, type_id))
        },
    }
}

/// An error expression was added.
pub open spec fn error_allocated(
    before: CheckState,
    after: CheckState,
    error: ElaboratedExpression,
) -> bool {
    &&& only_expressions_added(before, after)
    &&& after.checked.tree@ == before.checked.tree@.with_expression(
        error.type_id,
        ExpressionKind::Error,
    )
    &&& error.expression == before.checked.tree@.next_expression()
}

/// What has to be done to apply a function to a term.
#[allow(inconsistent_fields)]
#[derive(Clone, Copy, Debug, PartialEq, Eq, Structural)]
pub enum TermApplicationStep {
    /// The binder and those that follow have to be instantiated.
    Instantiate { binder: ForallBinder, body: TypeId },
    /// Evidence has been applied; the function has to be analysed again.
    Applied(ElaboratedExpression),
    /// The argument has to be checked against a type.
    CheckArgument { argument: TypeId, result: TypeId },
    /// The function cannot be applied; this stands for the application.
    Error(ElaboratedExpression),
}

/// One step of applying a function to a term, once the function's type has been
/// analysed.
pub fn check_expression_term_application_step(
    state: &mut CheckState,
    types: &mut Types,
    function: ElaboratedExpression,
    analysis: CallableAnalysis,
) -> (step: TermApplicationStep)
    requires
        old(types)@.wf(),
        old(state).implications@.wf(),
        old(state).checked.evidence@.variables.len() <= u32::MAX,
        old(state).checked.tree@.expressions.len() <= u32::MAX,
    ensures
        final(types)@.wf(),
        extends(old(types)@, final(types)@),
        final(types)@ == (if analysis is NotCallable {
            old(types)@.with_unknown("invalid function application"@).0
        } else {
            old(types)@
        }),
        final(state).implications@.wf(),
        match analysis {
            CallableAnalysis::Forall { binder, body } => step == (
            TermApplicationStep::Instantiate { binder, body }) && *final(state) == *old(state),
            CallableAnalysis::Constraint { constraint, result } => step
                matches TermApplicationStep::Applied(applied) && evidence_applied(
                *old(state),
                *final(state),
                function,
                constraint,
                result,
                applied,
            ),
            CallableAnalysis::Function { argument, result } => step == (
            TermApplicationStep::CheckArgument { argument, result }) && *final(state) == *old(
                state,
            ),
            CallableAnalysis::NotCallable => step matches TermApplicationStep::Error(error)
                && error_allocated(*old(state), *final(state), error) && final(types)@.is_unknown(
                error.type_id,
                "invalid function application"@,
            ),
        },
{
    match analysis {
        CallableAnalysis::Forall { binder, body } => TermApplicationStep::Instantiate {
            binder,
            body,
        },
        CallableAnalysis::Constraint { constraint, result } => TermApplicationStep::Applied(
            apply_evidence(state, function, constraint, result),
        ),
        CallableAnalysis::Function { argument, result } => TermApplicationStep::CheckArgument {
            argument,
            result,
        },
        CallableAnalysis::NotCallable => {
            let type_id = types.unknown("invalid function application");
            TermApplicationStep::Error(allocate_error_expression(state, type_id))
        },
    }
}

/// What has to be done to apply a function to a type.
#[allow(inconsistent_fields)]
#[derive(Clone, Copy, Debug, PartialEq, Eq, Structural)]
pub enum TypeApplicationStep {
    /// The argument has to be checked against the binder's kind and substituted.
    Substitute { binder: ForallBinder, body: TypeId },
    /// The binder and those that follow have to be instantiated.
    Instantiate { binder: ForallBinder, body: TypeId },
    /// Evidence has been applied; the function has to be looked at again.
    Applied(ElaboratedExpression),
    /// The function takes no type; this stands for the application.
    Error(ElaboratedExpression),
}

/// One step of applying a function to a type, once the function's type has been
/// expanded. Where there is no visible binder, that is reported for the type that
/// the function had at first.
pub fn check_expression_type_application_step(
    state: &mut CheckState,
    types: &mut Types,
    function: ElaboratedExpression,
    function_type: TypeId,
    expanded: TypeId,
) -> (step: TypeApplicationStep)
    requires
        old(types)@.wf(),
        old(state).implications@.wf(),
        old(state).checked.evidence@.variables.len() <= u32::MAX,
        old(state).checked.tree@.expressions.len() <= u32::MAX,
        old(types)@.has_type(expanded),
        forall|binder, body|
            #[trigger] old(types)@.denotes(expanded, Type::Forall(binder, body)) ==> binder.raw
                < old(types)@.binders.len(),
    ensures
        final(types)@.wf(),
        extends(old(types)@, final(types)@),
        final(types)@ == (if step is Error {
            old(types)@.with_unknown("invalid visible type application"@).0
        } else {
            old(types)@
        }),
        final(state).implications@.wf(),
        match old(types)@.type_at(expanded) {
            Type::Forall(id, body) => {
                let binder = old(types)@.binders[id.raw as int];
                &&& *final(state) == *old(state)
                &&& step == (if binder.visible {
                    TypeApplicationStep::Substitute { binder, body }
                } else {
                    TypeApplicationStep::Instantiate { binder, body }
                })
            },
            Type::Constrained(constraint, result) => step
                matches TypeApplicationStep::Applied(applied) && evidence_applied(
                *old(state),
                *final(state),
                function,
                constraint,
                result,
                applied,
            ),
            _ => step matches TypeApplicationStep::Error(error) && final(types)@.is_unknown(
                error.type_id,
                "invalid visible type application"@,
            ) && exists|middle: CheckState| #[trigger]
                reported(
                    *old(state),
                    middle,
                    ErrorKind::NoVisibleTypeVariable { function_type },
                ) && error_allocated(middle, *final(state), error),
        },
{
    match types.lookup_type(expanded) {
        Type::Forall(binder_id, body) => {
            assert(types@.denotes(expanded, Type::Forall(binder_id, body)));
            let binder = types.lookup_forall_binder(binder_id);
            if binder.visible {
                TypeApplicationStep::Substitute { binder, body }
            } else {
                TypeApplicationStep::Instantiate { binder, body }
            }
        },
        Type::Constrained(constraint, result) => TypeApplicationStep::Applied(
            apply_evidence(state, function, constraint, result),
        ),
        _ => {
            state.insert_error(ErrorKind::NoVisibleTypeVariable { function_type });
            let type_id = types.unknown("invalid visible type application");
            TypeApplicationStep::Error(allocate_error_expression(state, type_id))
        },
    }
}

/// A function in backticks and the operand behind it.
#[derive(Clone, Copy, Debug, PartialEq, Eq, Structural)]
pub struct InfixPair {
    pub tick: Option<SourceExpressionId>,
    pub element: Option<SourceExpressionId>,
}

/// The function and the operand of an infix pair, or an expression in place of
/// the chain where one of them is missing.
pub fn begin_infix_pair(state: &mut CheckState, types: &mut Types, pair: InfixPair) -> (begun:
    Result<(SourceExpressionId, SourceExpressionId), ElaboratedExpression>)
    requires
        old(types)@.wf(),
        old(state).checked.tree@.expressions.len() <= u32::MAX,
    ensures
        final(types)@.wf(),
        extends(old(types)@, final(types)@),
        final(types)@ == (match (pair.tick, pair.element) {
            (Some(_), Some(_)) => old(types)@,
            (None, _) => old(types)@.with_unknown("missing infix tick"@).0,
            (Some(_), None) => old(types)@.with_unknown("missing infix element"@).0,
        }),
        match (pair.tick, pair.element) {
            (Some(tick), Some(element)) => begun == Ok::<_, ElaboratedExpression>((tick, element))
                && *final(state) == *old(state),
            (None, _) => begun is Err && error_allocated(*old(state), *final(state), begun->Err_0)
                && final(types)@.is_unknown(begun->Err_0.type_id, "missing infix tick"@),
            (Some(_), None) => begun is Err && error_allocated(
                *old(state),
                *final(state),
                begun->Err_0,
            ) && final(types)@.is_unknown(begun->Err_0.type_id, "missing infix element"@),
        },
{
    let Some(tick) = pair.tick else {
        let unknown = types.unknown("missing infix tick");
        return Err(allocate_error_expression(state, unknown));
    };
    let Some(element) = pair.element else {
        let unknown = types.unknown("missing infix element");
        return Err(allocate_error_expression(state, unknown));
    };
    Ok((tick, element))
}

/// An expression in place of an application of what is no function.
pub fn invalid_application(state: &mut CheckState, types: &mut Types) -> (error:
    ElaboratedExpression)
    requires
        old(types)@.wf(),
        old(state).checked.tree@.expressions.len() <= u32::MAX,
    ensures
        final(types)@.wf(),
        extends(old(types)@, final(types)@),
        final(types)@ == old(types)@.with_unknown("invalid function application"@).0,
        error_allocated(*old(state), *final(state), error),
        final(types)@.is_unknown(error.type_id, "invalid function application"@),
{
    let unknown = types.unknown("invalid function application");
    allocate_error_expression(state, unknown)
}

} // verus!
