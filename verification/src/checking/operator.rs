//! Implements surface-generic operator chain inference.

use super::evidence::EvidenceBinderId;
use super::lowering::{SourceId, TermOperatorId};
use super::state::{with_tree, CheckState, CheckedModule, OperatorBranchTypes};
use super::terms::application::{
    allocate_expression, applied_to, evidence_nodes, grown_by, lemma_applied_to_extends,
    lemma_tree_extends_transitive, materialize_application, ElaboratedExpression,
    ImplicitApplication, UnanchoredApplication,
};
use super::terms::form_do::ElaboratedBinder;
use super::terms::forms::plainly_added;
use super::tree::{BinderKind, BinderSource, ExpressionId, ExpressionKind, Tree};
use super::types::{extends, FileId, Type, TypeId, TypeStore, Types};
use crate::indexing::items::{TermItemId, TypeItemId};
use vstd::prelude::*;

verus! {

#[derive(Clone, Copy, Debug, PartialEq, Eq, Structural)]
pub enum OperatorKindMode {
    Infer,
    Check { expected_type: TypeId },
}

/// One operand of an operator.
#[derive(Debug)]
pub struct OperatorApplication<Elaborated> {
    pub implicit: Vec<ImplicitApplication>,
    pub argument: (Elaborated, TypeId),
    pub result_type: TypeId,
}

/// An operator between its operands.
#[derive(Debug)]
pub struct OperatorBranch<Item, Elaborated> {
    pub operator_id: TermOperatorId,
    pub operator: ((FileId, Item), TypeId),
    pub left: OperatorApplication<Elaborated>,
    pub right: OperatorApplication<Elaborated>,
}

/// Operators and operands, bracketed by precedence.
#[derive(Debug)]
pub enum OperatorTree {
    Leaf(Option<SourceId>),
    Branch(TermOperatorId, Box<OperatorTree>, Box<OperatorTree>),
}

/// The type of a chain or of a part that cannot be elaborated: the one expected, or
/// an unknown one.
pub open spec fn is_placeholder(
    store: TypeStore,
    mode: OperatorKindMode,
    explanation: Seq<char>,
    type_id: TypeId,
) -> bool {
    match mode {
        OperatorKindMode::Infer => store.is_unknown(type_id, explanation),
        OperatorKindMode::Check { expected_type } => type_id == expected_type,
    }
}

/// The types that such a type adds.
pub open spec fn placeholder_store(
    store: TypeStore,
    mode: OperatorKindMode,
    explanation: Seq<char>,
) -> TypeStore {
    match mode {
        OperatorKindMode::Infer => store.with_unknown(explanation).0,
        OperatorKindMode::Check { .. } => store,
    }
}

fn placeholder(types: &mut Types, mode: OperatorKindMode, explanation: &str) -> (type_id: TypeId)
    requires
        old(types)@.wf(),
    ensures
        final(types)@.wf(),
        extends(old(types)@, final(types)@),
        final(types)@ == placeholder_store(old(types)@, mode, explanation@),
        is_placeholder(final(types)@, mode, explanation@, type_id),
        mode is Check ==> final(types)@ == old(types)@,
{
    match mode {
        OperatorKindMode::Infer => types.unknown(explanation),
        OperatorKindMode::Check { expected_type } => expected_type,
    }
}

/// The tree of a chain, or a type in place of a chain that is missing or that could
/// not be bracketed.
pub fn operator_chain(
    types: &mut Types,
    bracketed: Option<Option<OperatorTree>>,
    mode: OperatorKindMode,
) -> (chain: Result<OperatorTree, TypeId>)
    requires
        old(types)@.wf(),
    ensures
        final(types)@.wf(),
        extends(old(types)@, final(types)@),
        final(types)@ == (if chain is Ok {
            old(types)@
        } else {
            placeholder_store(old(types)@, mode, "invalid operator chain"@)
        }),
        match bracketed {
            Some(Some(tree)) => chain == Ok::<OperatorTree, TypeId>(tree),
            _ => chain is Err && is_placeholder(
                final(types)@,
                mode,
                "invalid operator chain"@,
                chain->Err_0,
            ),
        },
{
    match bracketed {
        Some(Some(tree)) => Ok(tree),
        _ => Err(placeholder(types, mode, "invalid operator chain")),
    }
}

/// What has to be done for a part of a chain.
#[allow(inconsistent_fields)]
#[derive(Clone, Copy, Debug, PartialEq, Eq, Structural)]
pub enum OperatorRequest {
    /// The operand has to be inferred.
    Infer { operand: SourceId },
    /// Constraints of the type have to be taken as given, and the operand to be
    /// checked against what is left of it.
    Check { operand: SourceId, expected_type: TypeId },
    /// The operator's type has to be taken apart.
    Branch { operator_id: TermOperatorId },
    /// There is nothing to elaborate; this is the type.
    Missing { type_id: TypeId },
}

/// What has to be done for a part of a chain; `resolved` says whether its operator
/// is known, where it is one.
pub fn operator_request(
    types: &mut Types,
    tree: &OperatorTree,
    resolved: bool,
    mode: OperatorKindMode,
) -> (request: OperatorRequest)
    requires
        old(types)@.wf(),
    ensures
        final(types)@.wf(),
        extends(old(types)@, final(types)@),
        final(types)@ == (match (*tree, request) {
            (OperatorTree::Leaf(_), OperatorRequest::Missing { .. }) => placeholder_store(
                old(types)@,
                mode,
                "missing operator leaf"@,
            ),
            (OperatorTree::Branch(_, _, _), OperatorRequest::Missing { .. }) => placeholder_store(
                old(types)@,
                mode,
                "missing operator resolution"@,
            ),
            _ => old(types)@,
        }),
        match *tree {
            OperatorTree::Leaf(None) => request matches OperatorRequest::Missing { type_id }
                && is_placeholder(final(types)@, mode, "missing operator leaf"@, type_id),
            OperatorTree::Leaf(Some(operand)) => request == (match mode {
                OperatorKindMode::Infer => OperatorRequest::Infer { operand },
                OperatorKindMode::Check { expected_type } => OperatorRequest::Check {
                    operand,
                    expected_type,
                },
            }),
            OperatorTree::Branch(operator_id, _, _) => if resolved {
                request == (OperatorRequest::Branch { operator_id })
            } else {
                request matches OperatorRequest::Missing { type_id } && is_placeholder(
                    final(types)@,
                    mode,
                    "missing operator resolution"@,
                    type_id,
                )
            },
        },
{
    match tree {
        OperatorTree::Leaf(None) => OperatorRequest::Missing {
            type_id: placeholder(types, mode, "missing operator leaf"),
        },
        OperatorTree::Leaf(Some(operand)) => match mode {
            OperatorKindMode::Infer => OperatorRequest::Infer { operand: *operand },
            OperatorKindMode::Check { expected_type } => OperatorRequest::Check {
                operand: *operand,
                expected_type,
            },
        },
        OperatorTree::Branch(operator_id, _, _) => {
            if resolved {
                OperatorRequest::Branch { operator_id: *operator_id }
            } else {
                OperatorRequest::Missing {
                    type_id: placeholder(types, mode, "missing operator resolution"),
                }
            }
        },
    }
}

/// The type of an operator that takes no two operands.
pub fn invalid_operator(types: &mut Types, mode: OperatorKindMode) -> (type_id: TypeId)
    requires
        old(types)@.wf(),
    ensures
        final(types)@.wf(),
        extends(old(types)@, final(types)@),
        final(types)@ == placeholder_store(old(types)@, mode, "invalid operator kind"@),
        is_placeholder(final(types)@, mode, "invalid operator kind"@, type_id),
{
    placeholder(types, mode, "invalid operator kind")
}

/// The types at an operator whose type has been taken apart twice.
pub open spec fn branch_types(
    left: UnanchoredApplication,
    right: UnanchoredApplication,
) -> OperatorBranchTypes {
    OperatorBranchTypes { left: left.argument, right: right.argument, result: right.result }
}

/// Keeps the types at a term operator.
pub fn record_term_branch_types(
    state: &mut CheckState,
    operator_id: TermOperatorId,
    left: &UnanchoredApplication,
    right: &UnanchoredApplication,
)
    ensures
        final(state).checked.term_operators@ == old(state).checked.term_operators@.insert(
            operator_id.raw as u64,
            branch_types(*left, *right),
        ),
        *final(state) == (CheckState {
            checked: CheckedModule {
                term_operators: final(state).checked.term_operators,
                ..old(state).checked
            },
            ..*old(state)
        }),
{
    let types = OperatorBranchTypes {
        left: left.argument,
        right: right.argument,
        result: right.result,
    };
    state.checked.term_operators.insert(operator_id.raw as u64, types);
}

/// Keeps the kinds at a type operator.
pub fn record_type_branch_types(
    state: &mut CheckState,
    operator_id: TermOperatorId,
    left: &UnanchoredApplication,
    right: &UnanchoredApplication,
)
    ensures
        final(state).checked.type_operators@ == old(state).checked.type_operators@.insert(
            operator_id.raw as u64,
            branch_types(*left, *right),
        ),
        *final(state) == (CheckState {
            checked: CheckedModule {
                type_operators: final(state).checked.type_operators,
                ..old(state).checked
            },
            ..*old(state)
        }),
{
    let types = OperatorBranchTypes {
        left: left.argument,
        right: right.argument,
        result: right.result,
    };
    state.checked.type_operators.insert(operator_id.raw as u64, types);
}

/// The parts of an operator's type, each checked against its own.
pub fn operand_modes(left: &UnanchoredApplication, right: &UnanchoredApplication) -> (modes: (
    OperatorKindMode,
    OperatorKindMode,
))
    ensures
        modes == (
            OperatorKindMode::Check { expected_type: left.argument },
            OperatorKindMode::Check { expected_type: right.argument },
        ),
{
    (
        OperatorKindMode::Check { expected_type: left.argument },
        OperatorKindMode::Check { expected_type: right.argument },
    )
}

/// An operator between its operands, which have been elaborated.
pub fn operator_branch<Item, Elaborated>(
    operator_id: TermOperatorId,
    operator: (FileId, Item),
    operator_type: TypeId,
    left: UnanchoredApplication,
    right: UnanchoredApplication,
    left_operand: Elaborated,
    right_operand: Elaborated,
) -> (branch: OperatorBranch<Item, Elaborated>)
    ensures
        branch == (OperatorBranch {
            operator_id,
            operator: (operator, operator_type),
            left: OperatorApplication {
                implicit: left.implicit,
                argument: (left_operand, left.argument),
                result_type: left.result,
            },
            right: OperatorApplication {
                implicit: right.implicit,
                argument: (right_operand, right.argument),
                result_type: right.result,
            },
        }),
{
    OperatorBranch {
        operator_id,
        operator: (operator, operator_type),
        left: OperatorApplication {
            implicit: left.implicit,
            argument: (left_operand, left.argument),
            result_type: left.result,
        },
        right: OperatorApplication {
            implicit: right.implicit,
            argument: (right_operand, right.argument),
            result_type: right.result,
        },
    }
}

// Terms

/// The constraint that is given while an operand is checked against a type, and
/// the type behind it. The type has been expanded.
pub fn expected_constraint(types: &Types, expected: TypeId) -> (constrained: Option<
    (TypeId, TypeId),
>)
    requires
        types@.has_type(expected),
    ensures
        constrained == (match types@.type_at(expected) {
            Type::Constrained(constraint, constrained) => Some((constraint, constrained)),
            _ => None,
        }),
{
    match types.lookup_type(expected) {
        Type::Constrained(constraint, constrained) => Some((constraint, constrained)),
        _ => None,
    }
}

/// An operand that has been checked with a constraint given: a function of the
/// evidence, of the type expected at first.
pub fn abstract_expected(
    state: &mut CheckState,
    binder: EvidenceBinderId,
    expected: TypeId,
    checked: Option<ElaboratedExpression>,
) -> (abstracted: Option<ElaboratedExpression>)
    requires
        old(state).checked.tree@.expressions.len() <= u32::MAX,
    ensures
        match checked {
            Some(checked) => abstracted is Some && plainly_added(
                *old(state),
                *final(state),
                expected,
                ExpressionKind::EvidenceAbstraction { binder, expression: checked.expression },
                abstracted->0,
            ),
            None => abstracted is None && *final(state) == *old(state),
        },
{
    match checked {
        Some(checked) => {
            let kind = ExpressionKind::EvidenceAbstraction {
                binder,
                expression: checked.expression,
            };
            Some(allocate_expression(state, expected, kind))
        },
        None => None,
    }
}

/// Whether the operands of a term operator are there, so that the operator's
/// target is needed.
pub fn has_operands<Item, T>(branch: &OperatorBranch<Item, Option<T>>) -> (both: bool)
    ensures
        both == (branch.left.argument.0 is Some && branch.right.argument.0 is Some),
{
    branch.left.argument.0.is_some() && branch.right.argument.0.is_some()
}

/// The outer expression is the operator applied to both operands.
pub open spec fn is_operator_applied(
    tree: Tree,
    operator: ExpressionId,
    left_implicit: Seq<ImplicitApplication>,
    left_argument: ExpressionId,
    left_result: TypeId,
    right_implicit: Seq<ImplicitApplication>,
    right_argument: ExpressionId,
    result: TypeId,
    outer: ExpressionId,
) -> bool {
    exists|partial: ExpressionId| #[trigger]
        applied_to(tree, operator, left_implicit, left_argument, partial, left_result)
            && applied_to(tree, partial, right_implicit, right_argument, outer, result)
}

/// The application of a term operator to its operands; none where an operand is
/// missing or the operator has no target. The target has been added to the tree.
pub fn build_expression(
    state: &mut CheckState,
    branch: &OperatorBranch<TermItemId, Option<ElaboratedExpression>>,
    target: Option<ElaboratedExpression>,
) -> (built: (Option<ElaboratedExpression>, TypeId))
    requires
        old(state).checked.tree@.expressions.len() + evidence_nodes(branch.left.implicit@)
            + evidence_nodes(branch.right.implicit@) + 2 <= u32::MAX,
    ensures
        built.1 == branch.right.result_type,
        match (branch.left.argument.0, branch.right.argument.0, target) {
            (Some(left), Some(right), Some(target)) => {
                &&& built.0 matches Some(expression)
                &&& expression.type_id == branch.right.result_type
                &&& grown_by(
                    *old(state),
                    *final(state),
                    evidence_nodes(branch.left.implicit@) + evidence_nodes(
                        branch.right.implicit@,
                    ) + 2,
                )
                &&& is_operator_applied(
                    final(state).checked.tree@,
                    target.expression,
                    branch.left.implicit@,
                    left.expression,
                    branch.left.result_type,
                    branch.right.implicit@,
                    right.expression,
                    branch.right.result_type,
                    expression.expression,
                )
            },
            _ => built.0 is None && *final(state) == *old(state),
        },
{
    let result_type = branch.right.result_type;
    let Some(left_argument) = branch.left.argument.0 else {
        return (None, result_type);
    };
    let Some(right_argument) = branch.right.argument.0 else {
        return (None, result_type);
    };
    let Some(target) = target else {
        return (None, result_type);
    };
    let left = materialize_application(
        state,
        target,
        &branch.left.implicit,
        branch.left.result_type,
        left_argument,
    );
    let ghost first = state.checked.tree@;
    let expression = materialize_application(
        state,
        left,
        &branch.right.implicit,
        result_type,
        right_argument,
    );
    proof {
        lemma_tree_extends_transitive(old(state).checked.tree@, first, state.checked.tree@);
        lemma_applied_to_extends(
            first,
            state.checked.tree@,
            target.expression,
            branch.left.implicit@,
            left_argument.expression,
            left.expression,
            branch.left.result_type,
        );
    }
    (Some(expression), result_type)
}

// Binders

/// The pattern of an operator between its operands; none where an operand is
/// missing or the operator has no target.
pub fn build_binder(
    state: &mut CheckState,
    branch: &OperatorBranch<TermItemId, Option<ElaboratedBinder>>,
    target: Option<(FileId, TermItemId)>,
) -> (built: (Option<ElaboratedBinder>, TypeId))
    requires
        old(state).checked.tree@.binders.len() <= u32::MAX,
    ensures
        built.1 == branch.right.result_type,
        match (branch.left.argument.0, branch.right.argument.0, target) {
            (Some(left), Some(right), Some(target)) => {
                let result_type = branch.right.result_type;
                &&& built.0 == Some(
                    ElaboratedBinder {
                        type_id: result_type,
                        binder: old(state).checked.tree@.next_binder(),
                    },
                )
                &&& *final(state) == with_tree(*old(state), final(state).checked.tree)
                &&& exists|arguments: Vec<super::tree::BinderId>|
                    arguments@ == seq![left.binder, right.binder]
                        && final(state).checked.tree@ == #[trigger] old(
                        state,
                    ).checked.tree@.with_binder(
                        BinderSource::Operator(branch.operator_id),
                        result_type,
                        BinderKind::Constructor { resolution: target, arguments },
                    )
            },
            _ => built.0 is None && *final(state) == *old(state),
        },
{
    let result_type = branch.right.result_type;
    let Some(left) = branch.left.argument.0 else {
        return (None, result_type);
    };
    let Some(right) = branch.right.argument.0 else {
        return (None, result_type);
    };
    let Some(resolution) = target else {
        return (None, result_type);
    };
    let mut arguments: Vec<super::tree::BinderId> = Vec::new();
    arguments.push(left.binder);
    arguments.push(right.binder);
    assert(arguments@ =~= seq![left.binder, right.binder]);
    let kind = BinderKind::Constructor { resolution, arguments };
    let binder = state.allocate_operator_binder(branch.operator_id, result_type, kind);
    (Some(ElaboratedBinder { type_id: result_type, binder }), result_type)
}

// Types

/// Whether synonyms stay as they are while the operands of a type operator are
/// checked: where the operator's target is a synonym itself.
pub fn should_defer_expansion(target_is_synonym: Option<bool>) -> (deferred: bool)
    ensures
        deferred == (target_is_synonym == Some(true)),
{
    match target_is_synonym {
        Some(is_synonym) => is_synonym,
        None => false,
    }
}

/// An argument of a type operator with its kind.
#[derive(Clone, Copy, Debug, PartialEq, Eq, Structural)]
pub struct TypeOperand {
    pub argument: TypeId,
    pub kind: TypeId,
}

/// The application of a type operator that is no synonym.
#[derive(Clone, Copy, Debug, PartialEq, Eq, Structural)]
pub struct TypeOperatorApplication {
    pub function: TypeId,
    pub left: TypeOperand,
    pub right: TypeOperand,
    /// The kind of the result, which still has to be normalised.
    pub result_kind: TypeId,
}

/// What a type operator between its operands comes to.
#[allow(inconsistent_fields)]
#[derive(Clone, Copy, Debug, PartialEq, Eq, Structural)]
pub enum BuiltType {
    /// The operator has no target. The type is its own kind.
    Unknown { type_id: TypeId },
    /// The synonym that the operator stands for has been applied. The kind still has
    /// to be normalised.
    Synonym { type_id: TypeId, kind: TypeId },
    Application { application: TypeOperatorApplication },
}

/// The operands of a type operator with their kinds.
pub open spec fn type_operands(branch: OperatorBranch<TypeItemId, TypeId>) -> (
    TypeOperand,
    TypeOperand,
) {
    (
        TypeOperand { argument: branch.left.argument.0, kind: branch.left.argument.1 },
        TypeOperand { argument: branch.right.argument.0, kind: branch.right.argument.1 },
    )
}

/// The operands of a type operator with their kinds.
pub fn operands_of(branch: &OperatorBranch<TypeItemId, TypeId>) -> (operands: (
    TypeOperand,
    TypeOperand,
))
    ensures
        operands == type_operands(*branch),
{
    (
        TypeOperand { argument: branch.left.argument.0, kind: branch.left.argument.1 },
        TypeOperand { argument: branch.right.argument.0, kind: branch.right.argument.1 },
    )
}

/// A type operator between its operands. `synonym` is what the operator's target comes
/// to for them, with its kind, where the target is a synonym.
pub fn build_type(
    types: &mut Types,
    branch: &OperatorBranch<TypeItemId, TypeId>,
    target: Option<(FileId, TypeItemId)>,
    synonym: Option<(TypeId, TypeId)>,
) -> (built: BuiltType)
    requires
        old(types)@.wf(),
    ensures
        final(types)@.wf(),
        extends(old(types)@, final(types)@),
        final(types)@ == (match (target, synonym) {
            (None, _) => old(types)@.with_unknown("missing operator resolution"@).0,
            (Some(_), Some(_)) => old(types)@,
            (Some((file_id, item_id)), None) => old(types)@.with_type(
                Type::Constructor(file_id, item_id),
            ),
        }),
        match (target, synonym) {
            (None, _) => {
                &&& built matches BuiltType::Unknown { type_id }
                &&& final(types)@.is_unknown(type_id, "missing operator resolution"@)
            },
            (Some(_), Some((type_id, kind))) => {
                &&& built == (BuiltType::Synonym { type_id, kind })
                &&& final(types)@ == old(types)@
            },
            (Some((file_id, item_id)), None) => {
                &&& built matches BuiltType::Application { application }
                &&& final(types)@.denotes(
                    application.function,
                    Type::Constructor(file_id, item_id),
                )
                &&& (application.left, application.right) == type_operands(*branch)
                &&& application.result_kind == branch.right.result_type
            },
        },
{
    let Some((file_id, item_id)) = target else {
        return BuiltType::Unknown { type_id: types.unknown("missing operator resolution") };
    };
    if let Some((type_id, kind)) = synonym {
        return BuiltType::Synonym { type_id, kind };
    }
    let function = types.intern_type(Type::Constructor(file_id, item_id));
    let (left, right) = operands_of(branch);
    let result_kind = branch.right.result_type;
    BuiltType::Application {
        application: TypeOperatorApplication { function, left, right, result_kind },
    }
}

} // verus!
