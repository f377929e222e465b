//! Operators between their operands, step by step.
//!
//! Progress tells what is asked next of the rest of the checker, and takes the
//! answer.

use super::lowering::TermOperatorId;
use super::operator::{
    branch_types, build_type, invalid_operator, is_placeholder, operand_modes, operands_of,
    operator_branch, placeholder_store, record_term_branch_types, record_type_branch_types,
    type_operands, BuiltType, OperatorApplication, OperatorBranch, OperatorKindMode, TypeOperand,
};
use super::state::{CheckState, CheckedModule};
use super::terms::application::UnanchoredApplication;
use super::types::{extends, FileId, Type, TypeId, Types};
use crate::indexing::items::TypeItemId;
use vstd::prelude::*;

verus! {

/// Whether an operator is one of terms or of types.
#[derive(Clone, Copy, Debug, PartialEq, Eq, Structural)]
pub enum OperatorSort {
    Term,
    Type,
}

/// An operator whose item and type are known.
#[derive(Debug)]
pub struct OperatorHead<Item> {
    pub sort: OperatorSort,
    pub operator_id: TermOperatorId,
    pub operator: (FileId, Item),
    pub operator_type: TypeId,
    pub mode: OperatorKindMode,
}

/// What is asked of the rest of the checker for an operator.
#[allow(inconsistent_fields)]
#[derive(Clone, Copy, Debug, PartialEq, Eq, Structural)]
pub enum BranchRequest {
    /// The argument that a function of the type takes.
    Apply { function: TypeId },
    /// The operands have to be elaborated, the left one first.
    Operands { left: OperatorKindMode, right: OperatorKindMode },
    /// Constraints of the type expected have to be taken as given, and the result has
    /// to be a subtype of what is left of it.
    Subsume { result: TypeId, expected_type: TypeId },
}

/// What the rest of the checker answers.
#[derive(Debug)]
pub enum BranchAnswer<Elaborated> {
    Application(Option<UnanchoredApplication>),
    Operands(Elaborated, Elaborated),
    Subsumed,
}

/// How far an operator between its operands has come.
#[allow(inconsistent_fields)]
#[derive(Debug)]
pub enum BranchProgress<Item, Elaborated> {
    Begun,
    First { first: UnanchoredApplication },
    Second { first: UnanchoredApplication, second: UnanchoredApplication },
    /// The result has to be of the type expected.
    Elaborated { branch: OperatorBranch<Item, Elaborated>, expected_type: TypeId },
    /// The branch can be built.
    Ready { branch: OperatorBranch<Item, Elaborated> },
    /// The operator takes no two operands; this is the type.
    Invalid { type_id: TypeId },
}

/// The operator between its operands.
pub open spec fn branch_of<Item, Elaborated>(
    head: OperatorHead<Item>,
    first: UnanchoredApplication,
    second: UnanchoredApplication,
    left: Elaborated,
    right: Elaborated,
) -> OperatorBranch<Item, Elaborated> {
    OperatorBranch {
        operator_id: head.operator_id,
        operator: (head.operator, head.operator_type),
        left: OperatorApplication {
            implicit: first.implicit,
            argument: (left, first.argument),
            result_type: first.result,
        },
        right: OperatorApplication {
            implicit: second.implicit,
            argument: (right, second.argument),
            result_type: second.result,
        },
    }
}

/// The types at the operator have been kept, and nothing else has changed.
pub open spec fn branch_recorded<Item>(
    before: CheckState,
    after: CheckState,
    head: OperatorHead<Item>,
    first: UnanchoredApplication,
    second: UnanchoredApplication,
) -> bool {
    let key = head.operator_id.raw as u64;
    match head.sort {
        OperatorSort::Term => {
            &&& after.checked.term_operators@ == before.checked.term_operators@.insert(
                key,
                branch_types(first, second),
            )
            &&& after == (CheckState {
                checked: CheckedModule {
                    term_operators: after.checked.term_operators,
                    ..before.checked
                },
                ..before
            })
        },
        OperatorSort::Type => {
            &&& after.checked.type_operators@ == before.checked.type_operators@.insert(
                key,
                branch_types(first, second),
            )
            &&& after == (CheckState {
                checked: CheckedModule {
                    type_operators: after.checked.type_operators,
                    ..before.checked
                },
                ..before
            })
        },
    }
}

impl<Item: Copy, Elaborated> BranchProgress<Item, Elaborated> {
    /// What is asked next; nothing once the branch can be built or is invalid.
    pub open spec fn requested(self, head: OperatorHead<Item>) -> Option<BranchRequest> {
        match self {
            BranchProgress::Begun => Some(BranchRequest::Apply { function: head.operator_type }),
            BranchProgress::First { first } => Some(
                BranchRequest::Apply { function: first.result },
            ),
            BranchProgress::Second { first, second } => Some(
                BranchRequest::Operands {
                    left: OperatorKindMode::Check { expected_type: first.argument },
                    right: OperatorKindMode::Check { expected_type: second.argument },
                },
            ),
            BranchProgress::Elaborated { branch, expected_type } => Some(
                BranchRequest::Subsume { result: branch.right.result_type, expected_type },
            ),
            BranchProgress::Ready { .. } => None,
            BranchProgress::Invalid { .. } => None,
        }
    }

    /// The answer is of the kind that is asked for.
    pub open spec fn is_answered(
        self,
        head: OperatorHead<Item>,
        answer: BranchAnswer<Elaborated>,
    ) -> bool {
        match self.requested(head) {
            Some(BranchRequest::Apply { .. }) => answer is Application,
            Some(BranchRequest::Operands { .. }) => answer is Operands,
            Some(BranchRequest::Subsume { .. }) => answer is Subsumed,
            None => false,
        }
    }

    /// How many answers are still to come at most.
    pub open spec fn remaining(self) -> nat {
        match self {
            BranchProgress::Begun => 4,
            BranchProgress::First { .. } => 3,
            BranchProgress::Second { .. } => 2,
            BranchProgress::Elaborated { .. } => 1,
            BranchProgress::Ready { .. } => 0,
            BranchProgress::Invalid { .. } => 0,
        }
    }

    pub fn request(&self, head: &OperatorHead<Item>) -> (request: Option<BranchRequest>)
        ensures
            request == self.requested(*head),
    {
        match self {
            BranchProgress::Begun => Some(BranchRequest::Apply { function: head.operator_type }),
            BranchProgress::First { first } => Some(
                BranchRequest::Apply { function: first.result },
            ),
            BranchProgress::Second { first, second } => {
                let (left, right) = operand_modes(first, second);
                Some(BranchRequest::Operands { left, right })
            },
            BranchProgress::Elaborated { branch, expected_type } => Some(
                BranchRequest::Subsume {
                    result: branch.right.result_type,
                    expected_type: *expected_type,
                },
            ),
            BranchProgress::Ready { .. } => None,
            BranchProgress::Invalid { .. } => None,
        }
    }

    /// Takes an answer. The types at the operator are kept once both of its arguments
    /// are known.
    pub fn advance(
        self,
        state: &mut CheckState,
        types: &mut Types,
        head: &OperatorHead<Item>,
        answer: BranchAnswer<Elaborated>,
    ) -> (after: BranchProgress<Item, Elaborated>)
        requires
            self.is_answered(*head, answer),
            old(types)@.wf(),
        ensures
            final(types)@.wf(),
            extends(old(types)@, final(types)@),
            final(types)@ == (if after is Invalid {
                placeholder_store(old(types)@, head.mode, "invalid operator kind"@)
            } else {
                old(types)@
            }),
            after.remaining() < self.remaining(),
            !(self is First) ==> *final(state) == *old(state),
            match (self, answer) {
                (BranchProgress::Begun, BranchAnswer::Application(Some(first))) => after
                    == BranchProgress::<Item, Elaborated>::First { first },
                (
                    BranchProgress::First { first },
                    BranchAnswer::Application(Some(second)),
                ) => {
                    &&& after == BranchProgress::<Item, Elaborated>::Second { first, second }
                    &&& branch_recorded(*old(state), *final(state), *head, first, second)
                },
                (
                    BranchProgress::Second { first, second },
                    BranchAnswer::Operands(left, right),
                ) => after == (match head.mode {
                    OperatorKindMode::Infer => BranchProgress::Ready {
                        branch: branch_of(*head, first, second, left, right),
                    },
                    OperatorKindMode::Check { expected_type } => BranchProgress::Elaborated {
                        branch: branch_of(*head, first, second, left, right),
                        expected_type,
                    },
                }),
                (BranchProgress::Elaborated { branch, .. }, _) => after
                    == BranchProgress::Ready { branch },
                _ => {
                    &&& after matches BranchProgress::Invalid { type_id }
                    &&& is_placeholder(
                        final(types)@,
                        head.mode,
                        "invalid operator kind"@,
                        type_id,
                    )
                    &&& *final(state) == *old(state)
                },
            },
    {
        match (self, answer) {
            (BranchProgress::Begun, BranchAnswer::Application(Some(first))) => {
                BranchProgress::First { first }
            },
            (BranchProgress::First { first }, BranchAnswer::Application(Some(second))) => {
                match head.sort {
                    OperatorSort::Term => {
                        record_term_branch_types(state, head.operator_id, &first, &second);
                    },
                    OperatorSort::Type => {
                        record_type_branch_types(state, head.operator_id, &first, &second);
                    },
                }
                BranchProgress::Second { first, second }
            },
            (BranchProgress::Second { first, second }, BranchAnswer::Operands(left, right)) => {
                let branch = operator_branch(
                    head.operator_id,
                    (head.operator.0, head.operator.1),
                    head.operator_type,
                    first,
                    second,
                    left,
                    right,
                );
                match head.mode {
                    OperatorKindMode::Infer => BranchProgress::Ready { branch },
                    OperatorKindMode::Check { expected_type } => BranchProgress::Elaborated {
                        branch,
                        expected_type,
                    },
                }
            },
            (BranchProgress::Elaborated { branch, .. }, _) => BranchProgress::Ready { branch },
            _ => BranchProgress::Invalid { type_id: invalid_operator(types, head.mode) },
        }
    }
}

// Type operators

/// What is asked of the rest of the checker to build a type operator.
#[allow(inconsistent_fields)]
#[derive(Clone, Copy, Debug, PartialEq, Eq)]
pub enum BuildRequest {
    /// The type that the operator stands for.
    Target,
    /// The kind of the operator's item.
    Kind,
    /// What the target comes to where it is a synonym.
    Synonym { target: (FileId, TypeItemId), kind: TypeId, left: TypeOperand, right: TypeOperand },
    Apply { function: TypeId, kind: TypeId, left: TypeOperand, right: TypeOperand },
    Normalise { kind: TypeId },
}

/// What the rest of the checker answers.
#[derive(Clone, Copy, Debug, PartialEq, Eq)]
pub enum BuildAnswer {
    Target(Option<(FileId, TypeItemId)>),
    /// A type or a kind.
    Type(TypeId),
    Synonym(Option<(TypeId, TypeId)>),
}

/// How far a type operator between its operands has been built.
#[allow(inconsistent_fields)]
#[derive(Clone, Copy, Debug, PartialEq, Eq)]
pub enum BuildProgress {
    Begun,
    Resolved { target: (FileId, TypeItemId) },
    Kinded { target: (FileId, TypeItemId), kind: TypeId },
    Application { function: TypeId, kind: TypeId },
    /// The kind of the type still has to be normalised.
    Built { type_id: TypeId, kind: TypeId },
    Done { type_id: TypeId, kind: TypeId },
}

impl BuildProgress {
    /// What is asked next; nothing once the type is built.
    pub open spec fn requested(self, branch: OperatorBranch<TypeItemId, TypeId>) -> Option<
        BuildRequest,
    > {
        let (left, right) = type_operands(branch);
        match self {
            BuildProgress::Begun => Some(BuildRequest::Target),
            BuildProgress::Resolved { .. } => Some(BuildRequest::Kind),
            BuildProgress::Kinded { target, kind } => Some(
                BuildRequest::Synonym { target, kind, left, right },
            ),
            BuildProgress::Application { function, kind } => Some(
                BuildRequest::Apply { function, kind, left, right },
            ),
            BuildProgress::Built { kind, .. } => Some(BuildRequest::Normalise { kind }),
            BuildProgress::Done { .. } => None,
        }
    }

    /// The answer is of the kind that is asked for.
    pub open spec fn is_answered(self, answer: BuildAnswer) -> bool {
        match self {
            BuildProgress::Begun => answer is Target,
            BuildProgress::Resolved { .. } => answer is Type,
            BuildProgress::Kinded { .. } => answer is Synonym,
            BuildProgress::Application { .. } => answer is Type,
            BuildProgress::Built { .. } => answer is Type,
            BuildProgress::Done { .. } => false,
        }
    }

    /// How many answers are still to come at most.
    pub open spec fn remaining(self) -> nat {
        match self {
            BuildProgress::Begun => 5,
            BuildProgress::Resolved { .. } => 4,
            BuildProgress::Kinded { .. } => 3,
            BuildProgress::Application { .. } => 2,
            BuildProgress::Built { .. } => 1,
            BuildProgress::Done { .. } => 0,
        }
    }

    pub fn request(&self, branch: &OperatorBranch<TypeItemId, TypeId>) -> (request: Option<
        BuildRequest,
    >)
        ensures
            request == self.requested(*branch),
    {
        let (left, right) = operands_of(branch);
        match *self {
            BuildProgress::Begun => Some(BuildRequest::Target),
            BuildProgress::Resolved { .. } => Some(BuildRequest::Kind),
            BuildProgress::Kinded { target, kind } => Some(
                BuildRequest::Synonym { target, kind, left, right },
            ),
            BuildProgress::Application { function, kind } => Some(
                BuildRequest::Apply { function, kind, left, right },
            ),
            BuildProgress::Built { kind, .. } => Some(BuildRequest::Normalise { kind }),
            BuildProgress::Done { .. } => None,
        }
    }

    /// Takes an answer. Without a target the type is unknown, and its own kind; nothing
    /// else is asked then.
    pub fn advance(
        self,
        types: &mut Types,
        branch: &OperatorBranch<TypeItemId, TypeId>,
        answer: BuildAnswer,
    ) -> (after: BuildProgress)
        requires
            self.is_answered(answer),
            old(types)@.wf(),
        ensures
            final(types)@.wf(),
            extends(old(types)@, final(types)@),
            final(types)@ == (match (self, answer) {
                (BuildProgress::Begun, BuildAnswer::Target(None)) => old(types)@.with_unknown(
                    "missing operator resolution"@,
                ).0,
                (
                    BuildProgress::Kinded { target, .. },
                    BuildAnswer::Synonym(None),
                ) => old(types)@.with_type(Type::Constructor(target.0, target.1)),
                _ => old(types)@,
            }),
            after.remaining() < self.remaining(),
            match (self, answer) {
                (BuildProgress::Begun, BuildAnswer::Target(Some(target))) => after == (
                BuildProgress::Resolved { target }),
                (BuildProgress::Begun, _) => after matches BuildProgress::Done { type_id, kind }
                    && kind == type_id && final(types)@.is_unknown(
                    type_id,
                    "missing operator resolution"@,
                ),
                (BuildProgress::Resolved { target }, BuildAnswer::Type(kind)) => after == (
                BuildProgress::Kinded { target, kind }),
                (
                    BuildProgress::Kinded { .. },
                    BuildAnswer::Synonym(Some((type_id, kind))),
                ) => after == (BuildProgress::Built { type_id, kind }),
                (BuildProgress::Kinded { target, kind }, _) => {
                    &&& after matches BuildProgress::Application { function, kind: same }
                    &&& same == kind
                    &&& final(types)@.denotes(function, Type::Constructor(target.0, target.1))
                },
                (BuildProgress::Application { .. }, BuildAnswer::Type(type_id)) => after == (
                BuildProgress::Built { type_id, kind: branch.right.result_type }),
                (BuildProgress::Built { type_id, .. }, BuildAnswer::Type(kind)) => after == (
                BuildProgress::Done { type_id, kind }),
                _ => false,
            },
    {
        match (self, answer) {
            (BuildProgress::Begun, BuildAnswer::Target(Some(target))) => {
                BuildProgress::Resolved { target }
            },
            (BuildProgress::Begun, _) => {
                match build_type(types, branch, None, None) {
                    BuiltType::Unknown { type_id } => BuildProgress::Done {
                        type_id,
                        kind: type_id,
                    },
                    _ => self,
                }
            },
            (BuildProgress::Resolved { target }, BuildAnswer::Type(kind)) => {
                BuildProgress::Kinded { target, kind }
            },
            (BuildProgress::Kinded { target, kind }, BuildAnswer::Synonym(synonym)) => {
                match build_type(types, branch, Some(target), synonym) {
                    BuiltType::Synonym { type_id, kind } => BuildProgress::Built { type_id, kind },
                    BuiltType::Application { application } => BuildProgress::Application {
                        function: application.function,
                        kind,
                    },
                    BuiltType::Unknown { .. } => self,
                }
            },
            (BuildProgress::Application { .. }, BuildAnswer::Type(type_id)) => {
                BuildProgress::Built { type_id, kind: branch.right.result_type }
            },
            (BuildProgress::Built { type_id, .. }, BuildAnswer::Type(kind)) => {
                BuildProgress::Done { type_id, kind }
            },
            _ => self,
        }
    }
}

} // verus!
