//! Functions and case expressions, step by step.
//!
//! Progress tells what is asked next of the rest of the checker, and takes the
//! answer.

use super::super::lowering::{SourceBinderId, SourceExpressionId};
use super::super::state::CheckState;
use super::super::tree::{BinderId, CaseAlternative, ExpressionId, ExpressionKind, GuardedExpression};
use super::super::tree::is_plain;
use super::super::types::{extends, Prim, Type, TypeId, Types};
use super::application::ElaboratedExpression;
use super::form_do::{is_variable, variables_added, ElaboratedBinder};
use super::forms::{
    branch_mode, case_alternative, check_lambda_step, fresh_function, plainly_added, CaseBranch,
    ExpressionMode, LambdaStep,
};
use super::guarded::GuardedExpressionMode;
use vstd::prelude::*;

verus! {

// Functions

/// What has been checked of a function: the types of its arguments, its binders, and
/// the type of what is left.
#[derive(Debug)]
pub struct LambdaParts {
    pub arguments: Vec<TypeId>,
    pub binders: Vec<BinderId>,
    pub remaining: TypeId,
}

/// How far a function that is checked against a type has come.
#[allow(inconsistent_fields)]
#[derive(Debug)]
pub enum LambdaProgress {
    /// What is left of the type has to be expanded.
    Expand { parts: LambdaParts },
    /// What is left of the type has to be taken apart as that of a function.
    Decompose { parts: LambdaParts },
    /// Whether the next binder needs an argument that is instantiated.
    Instantiable { parts: LambdaParts, argument: TypeId },
    /// The argument has to be instantiated.
    Instantiate { parts: LambdaParts, argument: TypeId },
    /// A new function type has to be a subtype of what was left.
    Relate { parts: LambdaParts, argument: TypeId, function: TypeId, expected: TypeId },
    /// The next binder has to be checked against the argument.
    Binder { parts: LambdaParts, argument: TypeId },
    /// The binders that are left, or the body, have to be checked against what is left
    /// of the type.
    Body { parts: LambdaParts },
}

/// What the rest of the checker answers.
#[derive(Clone, Copy, Debug)]
pub enum LambdaAnswer {
    Type(TypeId),
    Decomposed(Option<(TypeId, TypeId)>),
    Instantiable(bool),
    Related,
    Binder(ElaboratedBinder),
}

/// What follows once some binders are checked. What is left of the type is looked at
/// only behind the first of them.
pub open spec fn lambda_continued(parts: LambdaParts, count: nat) -> LambdaProgress {
    if parts.arguments@.len() >= count {
        LambdaProgress::Body { parts }
    } else if parts.arguments@.len() > 0 {
        LambdaProgress::Expand { parts }
    } else {
        LambdaProgress::Decompose { parts }
    }
}

fn continue_lambda(parts: LambdaParts, count: usize) -> (progress: LambdaProgress)
    ensures
        progress == lambda_continued(parts, count as nat),
{
    if parts.arguments.len() >= count {
        LambdaProgress::Body { parts }
    } else if parts.arguments.len() > 0 {
        LambdaProgress::Expand { parts }
    } else {
        LambdaProgress::Decompose { parts }
    }
}

impl LambdaProgress {
    pub open spec fn parts(self) -> LambdaParts {
        match self {
            LambdaProgress::Expand { parts } => parts,
            LambdaProgress::Decompose { parts } => parts,
            LambdaProgress::Instantiable { parts, .. } => parts,
            LambdaProgress::Instantiate { parts, .. } => parts,
            LambdaProgress::Relate { parts, .. } => parts,
            LambdaProgress::Binder { parts, .. } => parts,
            LambdaProgress::Body { parts } => parts,
        }
    }

    /// There are as many binders as arguments, and one more to check but in the end.
    /// The type is expanded only behind the first.
    pub open spec fn wf(self, count: nat) -> bool {
        &&& self.parts().arguments@.len() == self.parts().binders@.len()
        &&& self.parts().arguments@.len() <= count
        &&& !(self is Body) ==> self.parts().arguments@.len() < count
        &&& self is Expand ==> self.parts().arguments@.len() > 0
    }

    pub fn begin(expected: TypeId, count: usize) -> (progress: LambdaProgress)
        ensures
            progress.wf(count as nat),
            progress.parts().arguments@.len() == 0,
            progress.parts().binders@.len() == 0,
            progress.parts().remaining == expected,
            progress == lambda_continued(progress.parts(), count as nat),
    {
        let parts = LambdaParts {
            arguments: Vec::new(),
            binders: Vec::new(),
            remaining: expected,
        };
        continue_lambda(parts, count)
    }

    /// The position of the binder that is checked next.
    pub fn position(&self) -> (position: usize)
        ensures
            position == self.parts().arguments@.len(),
    {
        match self {
            LambdaProgress::Expand { parts } => parts.arguments.len(),
            LambdaProgress::Decompose { parts } => parts.arguments.len(),
            LambdaProgress::Instantiable { parts, .. } => parts.arguments.len(),
            LambdaProgress::Instantiate { parts, .. } => parts.arguments.len(),
            LambdaProgress::Relate { parts, .. } => parts.arguments.len(),
            LambdaProgress::Binder { parts, .. } => parts.arguments.len(),
            LambdaProgress::Body { parts } => parts.arguments.len(),
        }
    }

    pub fn into_parts(self) -> (parts: LambdaParts)
        ensures
            parts == self.parts(),
    {
        match self {
            LambdaProgress::Expand { parts } => parts,
            LambdaProgress::Decompose { parts } => parts,
            LambdaProgress::Instantiable { parts, .. } => parts,
            LambdaProgress::Instantiate { parts, .. } => parts,
            LambdaProgress::Relate { parts, .. } => parts,
            LambdaProgress::Binder { parts, .. } => parts,
            LambdaProgress::Body { parts } => parts,
        }
    }

    /// The answer is of the kind that is asked for.
    pub open spec fn is_answered(self, answer: LambdaAnswer) -> bool {
        match self {
            LambdaProgress::Expand { .. } => answer is Type,
            LambdaProgress::Decompose { .. } => answer is Decomposed,
            LambdaProgress::Instantiable { .. } => answer is Instantiable,
            LambdaProgress::Instantiate { .. } => answer is Type,
            LambdaProgress::Relate { .. } => answer is Related,
            LambdaProgress::Binder { .. } => answer is Binder,
            LambdaProgress::Body { .. } => false,
        }
    }

    /// Takes an answer. The binders that are left belong to a function within, where
    /// the type in front of them has to be abstracted over.
    pub fn advance(
        self,
        state: &mut CheckState,
        types: &mut Types,
        prim: &Prim,
        count: usize,
        answer: LambdaAnswer,
    ) -> (after: LambdaProgress)
        requires
            self.wf(count as nat),
            self.is_answered(answer),
            self is Expand ==> (answer matches LambdaAnswer::Type(expanded) ==> old(
                types,
            )@.has_type(expanded)),
            old(state).unifications.wf(),
            !old(state).unifications.is_frozen(),
            old(state).unifications@.len() + 2 <= u32::MAX,
            old(types)@.wf(),
        ensures
            after.wf(count as nat),
            final(types)@.wf(),
            extends(old(types)@, final(types)@),
            !(after is Relate) ==> *final(state) == *old(state) && final(types)@ == old(types)@,
            match (self, answer) {
                (LambdaProgress::Expand { parts }, LambdaAnswer::Type(expanded)) => after == (
                match old(types)@.type_at(expanded) {
                    Type::Forall(_, _) => LambdaProgress::Body { parts },
                    Type::Constrained(_, _) => LambdaProgress::Body { parts },
                    _ => LambdaProgress::Decompose { parts },
                }),
                (
                    LambdaProgress::Decompose { parts },
                    LambdaAnswer::Decomposed(Some((argument, result))),
                ) => after == (LambdaProgress::Instantiable {
                    parts: LambdaParts { remaining: result, ..parts },
                    argument,
                }),
                (LambdaProgress::Decompose { parts }, _) => {
                    &&& after matches LambdaProgress::Relate {
                        parts: next,
                        argument,
                        function,
                        expected,
                    }
                    &&& next == (LambdaParts { remaining: next.remaining, ..parts })
                    &&& expected == parts.remaining
                    &&& variables_added(*old(state), *final(state), seq![prim.t, prim.t])
                    &&& is_variable(final(types)@, argument, old(state).unifications@.len())
                    &&& is_variable(
                        final(types)@,
                        next.remaining,
                        old(state).unifications@.len() + 1,
                    )
                    &&& final(types)@.denotes(function, Type::Function(argument, next.remaining))
                    &&& final(types)@ == old(types)@.with_variables(
                        old(state).unifications@.len(),
                        2,
                    ).with_type(Type::Function(argument, next.remaining))
                },
                (
                    LambdaProgress::Instantiable { parts, argument },
                    LambdaAnswer::Instantiable(needed),
                ) => after == (if needed {
                    LambdaProgress::Instantiate { parts, argument }
                } else {
                    LambdaProgress::Binder { parts, argument }
                }),
                (
                    LambdaProgress::Instantiate { parts, .. },
                    LambdaAnswer::Type(argument),
                ) => after == (LambdaProgress::Binder { parts, argument }),
                (LambdaProgress::Relate { parts, argument, .. }, _) => after == (
                LambdaProgress::Binder { parts, argument }),
                (
                    LambdaProgress::Binder { parts, argument },
                    LambdaAnswer::Binder(binder),
                ) => {
                    &&& after == lambda_continued(after.parts(), count as nat)
                    &&& after.parts().remaining == parts.remaining
                    &&& after.parts().arguments@ == parts.arguments@.push(argument)
                    &&& after.parts().binders@ == parts.binders@.push(binder.binder)
                },
                _ => false,
            },
    {
        match (self, answer) {
            (LambdaProgress::Expand { parts }, LambdaAnswer::Type(expanded)) => {
                match check_lambda_step(types, parts.arguments.len(), expanded) {
                    LambdaStep::Abstract => LambdaProgress::Body { parts },
                    _ => LambdaProgress::Decompose { parts },
                }
            },
            (
                LambdaProgress::Decompose { parts },
                LambdaAnswer::Decomposed(Some((argument, result))),
            ) => LambdaProgress::Instantiable {
                parts: LambdaParts { remaining: result, ..parts },
                argument,
            },
            (LambdaProgress::Decompose { parts }, _) => {
                let fresh = fresh_function(state, types, prim);
                let expected = parts.remaining;
                LambdaProgress::Relate {
                    parts: LambdaParts { remaining: fresh.result, ..parts },
                    argument: fresh.argument,
                    function: fresh.function,
                    expected,
                }
            },
            (
                LambdaProgress::Instantiable { parts, argument },
                LambdaAnswer::Instantiable(needed),
            ) => {
                if needed {
                    LambdaProgress::Instantiate { parts, argument }
                } else {
                    LambdaProgress::Binder { parts, argument }
                }
            },
            (LambdaProgress::Instantiate { parts, .. }, LambdaAnswer::Type(argument)) => {
                LambdaProgress::Binder { parts, argument }
            },
            (LambdaProgress::Relate { parts, argument, .. }, _) => {
                LambdaProgress::Binder { parts, argument }
            },
            (LambdaProgress::Binder { parts, argument }, LambdaAnswer::Binder(binder)) => {
                let mut parts = parts;
                parts.arguments.push(argument);
                parts.binders.push(binder.binder);
                continue_lambda(parts, count)
            },
            (unanswered, _) => unanswered,
        }
    }
}

// Case expressions

/// How far a case expression has come: what is matched on, with its types, the
/// alternatives that are done, and the binders of the one that is under way.
#[derive(Debug)]
pub struct CaseProgress {
    pub scrutinees: Vec<ExpressionId>,
    pub trunk_types: Vec<TypeId>,
    /// Whether the types have been instantiated for the patterns.
    pub instantiated: bool,
    pub alternatives: Vec<CaseAlternative>,
    pub binders: Vec<BinderId>,
}

/// What is to be done next with a case expression.
#[allow(inconsistent_fields)]
#[derive(Clone, Copy, Debug, PartialEq, Eq, Structural)]
pub enum CaseStep {
    /// What is matched on has to be inferred, and instantiated.
    Infer { expression: SourceExpressionId },
    /// The types of what is matched on have to be instantiated for the patterns.
    Instantiate,
    CheckBinder { binder: SourceBinderId, expected: TypeId },
    /// What stands behind the binders of the branch is checked.
    CheckBody { branch: usize, mode: GuardedExpressionMode },
    /// Nothing stands behind the binders of the branch.
    MissingBody,
    Done,
}

/// How many binders of a branch are checked: there is a type for each of them.
pub open spec fn branch_width(branch: CaseBranch, trunk_types: Seq<TypeId>) -> nat {
    if branch.binders@.len() <= trunk_types.len() {
        branch.binders@.len()
    } else {
        trunk_types.len()
    }
}

/// How a guarded expression behind a branch is elaborated.
pub open spec fn guarded_mode(mode: ExpressionMode, expected: TypeId) -> GuardedExpressionMode {
    match mode {
        ExpressionMode::Infer => GuardedExpressionMode::Subsume { expected },
        ExpressionMode::Check { .. } => GuardedExpressionMode::Check { expected },
    }
}

impl CaseProgress {
    /// What is done is what the source has, in order.
    pub open spec fn follows(
        self,
        trunk: Seq<SourceExpressionId>,
        branches: Seq<CaseBranch>,
    ) -> bool {
        &&& self.scrutinees@.len() <= trunk.len()
        &&& self.trunk_types@.len() == self.scrutinees@.len()
        &&& self.instantiated ==> self.scrutinees@.len() == trunk.len()
        &&& self.alternatives@.len() <= branches.len()
        &&& if self.instantiated && self.alternatives@.len() < branches.len() {
            self.binders@.len() <= branch_width(
                branches[self.alternatives@.len() as int],
                self.trunk_types@,
            )
        } else {
            self.binders@.len() == 0
        }
        &&& !self.instantiated ==> self.alternatives@.len() == 0
    }

    pub fn new() -> (progress: CaseProgress)
        ensures
            progress.scrutinees@.len() == 0,
            progress.alternatives@.len() == 0,
            forall|trunk: Seq<SourceExpressionId>, branches: Seq<CaseBranch>| #[trigger]
                progress.follows(trunk, branches),
    {
        CaseProgress {
            scrutinees: Vec::new(),
            trunk_types: Vec::new(),
            instantiated: false,
            alternatives: Vec::new(),
            binders: Vec::new(),
        }
    }

    /// What is to be done next.
    pub open spec fn next(
        self,
        trunk: Seq<SourceExpressionId>,
        branches: Seq<CaseBranch>,
        mode: ExpressionMode,
        expected: TypeId,
    ) -> CaseStep {
        let done = self.alternatives@.len();
        let position = self.binders@.len();
        if self.scrutinees@.len() < trunk.len() {
            CaseStep::Infer { expression: trunk[self.scrutinees@.len() as int] }
        } else if !self.instantiated {
            CaseStep::Instantiate
        } else if done == branches.len() {
            CaseStep::Done
        } else if position < branch_width(branches[done as int], self.trunk_types@) {
            CaseStep::CheckBinder {
                binder: branches[done as int].binders@[position as int],
                expected: self.trunk_types@[position as int],
            }
        } else if branches[done as int].has_guarded {
            CaseStep::CheckBody { branch: done as usize, mode: guarded_mode(mode, expected) }
        } else {
            CaseStep::MissingBody
        }
    }

    pub fn step(
        &self,
        trunk: &Vec<SourceExpressionId>,
        branches: &Vec<CaseBranch>,
        mode: ExpressionMode,
        expected: TypeId,
    ) -> (step: CaseStep)
        requires
            self.follows(trunk@, branches@),
        ensures
            step == self.next(trunk@, branches@, mode, expected),
    {
        if self.scrutinees.len() < trunk.len() {
            return CaseStep::Infer { expression: trunk[self.scrutinees.len()] };
        }
        if !self.instantiated {
            return CaseStep::Instantiate;
        }
        let done: usize = self.alternatives.len();
        if done == branches.len() {
            return CaseStep::Done;
        }
        let branch = &branches[done];
        let position: usize = self.binders.len();
        if position < branch.binders.len() && position < self.trunk_types.len() {
            CaseStep::CheckBinder {
                binder: branch.binders[position],
                expected: self.trunk_types[position],
            }
        } else if branch.has_guarded {
            CaseStep::CheckBody { branch: done, mode: branch_mode(mode, expected) }
        } else {
            CaseStep::MissingBody
        }
    }

    /// One more expression that is matched on has been inferred.
    pub fn push_scrutinee(&mut self, scrutinee: ElaboratedExpression)
        ensures
            *final(self) == (CaseProgress {
                scrutinees: final(self).scrutinees,
                trunk_types: final(self).trunk_types,
                ..*old(self)
            }),
            final(self).scrutinees@ == old(self).scrutinees@.push(scrutinee.expression),
            final(self).trunk_types@ == old(self).trunk_types@.push(scrutinee.type_id),
            forall|trunk: Seq<SourceExpressionId>, branches: Seq<CaseBranch>| #[trigger]
                old(self).follows(trunk, branches) && old(self).scrutinees@.len() < trunk.len()
                    ==> final(self).follows(trunk, branches),
    {
        self.scrutinees.push(scrutinee.expression);
        self.trunk_types.push(scrutinee.type_id);
    }

    /// The types have been instantiated.
    pub fn instantiate(&mut self, trunk_types: Vec<TypeId>)
        requires
            trunk_types@.len() == old(self).trunk_types@.len(),
        ensures
            *final(self) == (CaseProgress { trunk_types, instantiated: true, ..*old(self) }),
            forall|trunk: Seq<SourceExpressionId>, branches: Seq<CaseBranch>| #[trigger]
                old(self).follows(trunk, branches) && old(self).scrutinees@.len() == trunk.len()
                    && !old(self).instantiated ==> final(self).follows(trunk, branches),
    {
        self.trunk_types = trunk_types;
        self.instantiated = true;
    }

    /// One more binder of the branch under way has been checked.
    pub fn push_binder(&mut self, binder: BinderId)
        ensures
            *final(self) == (CaseProgress { binders: final(self).binders, ..*old(self) }),
            final(self).binders@ == old(self).binders@.push(binder),
            forall|trunk: Seq<SourceExpressionId>, branches: Seq<CaseBranch>| #[trigger]
                old(self).follows(trunk, branches) && old(self).instantiated
                    && old(self).alternatives@.len() < branches.len() && old(self).binders@.len()
                    < branch_width(
                    branches[old(self).alternatives@.len() as int],
                    old(self).trunk_types@,
                ) ==> final(self).follows(trunk, branches),
    {
        self.binders.push(binder);
    }

    /// The branch under way is done. Where nothing stands behind its binders, there is
    /// an error in that place.
    pub fn push_body(
        &mut self,
        state: &mut CheckState,
        guarded: Option<GuardedExpression>,
        expected: TypeId,
    )
        requires
            old(state).checked.tree@.expressions.len() <= u32::MAX,
        ensures
            *final(self) == (CaseProgress {
                alternatives: final(self).alternatives,
                binders: final(self).binders,
                ..*old(self)
            }),
            final(self).binders@.len() == 0,
            final(self).alternatives@.len() == old(self).alternatives@.len() + 1,
            final(self).alternatives@.drop_last() == old(self).alternatives@,
            final(self).alternatives@.last().binders == old(self).binders,
            match guarded {
                Some(guarded) => final(self).alternatives@.last().guarded_expression == guarded
                    && *final(state) == *old(state),
                None => {
                    let missing = old(state).checked.tree@.next_expression();
                    let alternatives =
                        final(self).alternatives@.last().guarded_expression.alternatives@;
                    &&& plainly_added(
                        *old(state),
                        *final(state),
                        expected,
                        ExpressionKind::Error,
                        ElaboratedExpression { type_id: expected, expression: missing },
                    )
                    &&& alternatives.len() == 1
                    &&& alternatives[0].pattern_guards@.len() == 0
                    &&& is_plain(alternatives[0].where_expression, missing)
                },
            },
            forall|trunk: Seq<SourceExpressionId>, branches: Seq<CaseBranch>| #[trigger]
                old(self).follows(trunk, branches) && old(self).instantiated
                    && old(self).alternatives@.len() < branches.len() ==> final(self).follows(
                    trunk,
                    branches,
                ),
    {
        let ghost before = *self;
        let mut binders: Vec<BinderId> = Vec::new();
        std::mem::swap(&mut self.binders, &mut binders);
        let alternative = case_alternative(state, binders, guarded, expected);
        self.alternatives.push(alternative);
        assert(self.alternatives@.drop_last() =~= before.alternatives@);
    }
}

} // verus!
