//! What operators between operands stand for.

use super::operator::{
    branch_types, is_operator_applied, type_operands, OperatorBranch, OperatorKindMode,
};
use super::operator_steps::{branch_of, BranchProgress, BranchRequest, OperatorHead};
use super::terms::application::{applied_to, ImplicitApplication, UnanchoredApplication};
use super::terms::block_laws::{lemma_without_evidence, without_evidence};
use super::tree::{ExpressionId, ExpressionKind, Tree};
use super::types::TypeId;
use crate::indexing::items::TypeItemId;
use vstd::prelude::*;

verus! {

/// An operator is applied to its left operand, and what that gives to its right one.
pub proof fn lemma_operator_applied(
    tree: Tree,
    operator: ExpressionId,
    left_implicit: Seq<ImplicitApplication>,
    left_argument: ExpressionId,
    left_result: TypeId,
    right_implicit: Seq<ImplicitApplication>,
    right_argument: ExpressionId,
    result: TypeId,
    outer: ExpressionId,
)
    requires
        is_operator_applied(
            tree,
            operator,
            left_implicit,
            left_argument,
            left_result,
            right_implicit,
            right_argument,
            result,
            outer,
        ),
        operator.raw < tree.expressions.len(),
        !(tree.expressions[operator.raw as int].kind is EvidenceApplication),
    ensures
        outer.raw < tree.expressions.len(),
        tree.expressions[outer.raw as int].type_id == result,
        tree.expressions[outer.raw as int].kind matches ExpressionKind::TermApplication {
            function,
            argument,
        } && argument == right_argument && {
            let partial = without_evidence(tree, function, right_implicit.len());
            &&& partial.raw < tree.expressions.len()
            &&& tree.expressions[partial.raw as int].type_id == left_result
            &&& tree.expressions[partial.raw as int].kind
                matches ExpressionKind::TermApplication { function: inner, argument: first }
            &&& first == left_argument
            &&& without_evidence(tree, inner, left_implicit.len()) == operator
        },
{
    let partial = choose|partial: ExpressionId| #[trigger]
        applied_to(tree, operator, left_implicit, left_argument, partial, left_result)
            && applied_to(tree, partial, right_implicit, right_argument, outer, result);
    if let ExpressionKind::TermApplication { function, .. } =
        tree.expressions[outer.raw as int].kind {
        lemma_without_evidence(tree, partial, right_implicit, function);
    }
    if let ExpressionKind::TermApplication { function, .. } =
        tree.expressions[partial.raw as int].kind {
        lemma_without_evidence(tree, operator, left_implicit, function);
    }
}

/// An operator's type is taken apart twice: the first argument is what its left operand
/// is checked against, the second one its right operand, and what is left is the type of
/// the whole. The operands stay on their sides.
pub proof fn lemma_operand_sides<Item: Copy, Elaborated>(
    head: OperatorHead<Item>,
    first: UnanchoredApplication,
    second: UnanchoredApplication,
    left: Elaborated,
    right: Elaborated,
    expected_type: TypeId,
)
    ensures
        BranchProgress::<Item, Elaborated>::Begun.requested(head) == Some(
            BranchRequest::Apply { function: head.operator_type },
        ),
        (BranchProgress::<Item, Elaborated>::First { first }).requested(head) == Some(
            BranchRequest::Apply { function: first.result },
        ),
        (BranchProgress::<Item, Elaborated>::Second { first, second }).requested(head) == Some(
            BranchRequest::Operands {
                left: OperatorKindMode::Check { expected_type: first.argument },
                right: OperatorKindMode::Check { expected_type: second.argument },
            },
        ),
        (BranchProgress::Elaborated {
            branch: branch_of(head, first, second, left, right),
            expected_type,
        }).requested(head) == Some(
            BranchRequest::Subsume { result: second.result, expected_type },
        ),
        ({
            let branch = branch_of(head, first, second, left, right);
            &&& branch.operator_id == head.operator_id
            &&& branch.operator.0 == head.operator
            &&& branch.left.argument == (left, first.argument)
            &&& branch.right.argument == (right, second.argument)
            &&& branch.right.result_type == second.result
            &&& branch.left.implicit == first.implicit
            &&& branch.right.implicit == second.implicit
        }),
        branch_types(first, second).left == first.argument,
        branch_types(first, second).right == second.argument,
        branch_types(first, second).result == second.result,
{
}

/// The operands of a type operator keep their sides.
pub proof fn lemma_type_operands(branch: OperatorBranch<TypeItemId, TypeId>)
    ensures
        type_operands(branch).0.argument == branch.left.argument.0,
        type_operands(branch).0.kind == branch.left.argument.1,
        type_operands(branch).1.argument == branch.right.argument.0,
        type_operands(branch).1.kind == branch.right.argument.1,
{
}

} // verus!
