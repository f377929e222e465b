//! Implements checking and inference rules for guarded and where expressions.

use super::super::lowering::{SourceBinderId, SourceExpressionId};
use super::super::state::{unification_added, CheckState};
use super::super::tree::{
    is_plain, is_unconditional, GuardedAlternative, GuardedExpression, LetBindings, PatternGuard,
    WhereExpression,
};
use super::super::types::{extends, Prim, TypeId, TypeStore, Types};
use super::application::{error_allocated, ElaboratedExpression};
use super::form_do::{is_variable, ElaboratedBinder};
use vstd::prelude::*;

verus! {

#[derive(Debug)]
pub struct ElaboratedGuardedExpression {
    pub type_id: TypeId,
    pub guarded_expression: GuardedExpression,
}

#[derive(Debug)]
pub struct ElaboratedWhereExpression {
    pub type_id: TypeId,
    pub where_expression: WhereExpression,
}

#[allow(inconsistent_fields)]
#[derive(Clone, Copy, Debug, PartialEq, Eq, Structural)]
pub enum GuardedExpressionMode {
    Infer,
    Subsume { expected: TypeId },
    Check { expected: TypeId },
}

#[derive(Clone, Copy, Debug, PartialEq, Eq, Structural)]
pub enum WhereExpressionMode {
    Infer,
    Check { expected: TypeId },
}

/// The type that is expected, where one is.
pub open spec fn expected_in(mode: GuardedExpressionMode) -> Option<TypeId> {
    match mode {
        GuardedExpressionMode::Infer => None,
        GuardedExpressionMode::Subsume { expected } => Some(expected),
        GuardedExpressionMode::Check { expected } => Some(expected),
    }
}

/// An error expression was added, of the type expected or of an unknown one.
pub open spec fn missing_added(
    before: CheckState,
    after: CheckState,
    store: TypeStore,
    expected: Option<TypeId>,
    explanation: Seq<char>,
    type_id: TypeId,
) -> bool {
    &&& error_allocated(
        before,
        after,
        ElaboratedExpression { type_id, expression: before.checked.tree@.next_expression() },
    )
    &&& match expected {
        Some(expected) => type_id == expected,
        None => store.is_unknown(type_id, explanation),
    }
}

/// How the expression behind an unconditional guard is elaborated.
#[derive(Clone, Copy, Debug, PartialEq, Eq, Structural)]
pub struct WhereRequest {
    pub mode: WhereExpressionMode,
    /// The type that an inferred expression has to be subsumed by.
    pub subsume: Option<TypeId>,
}

/// How the expression behind an unconditional guard is elaborated. One that is to
/// be subsumed is inferred first.
pub fn where_request(mode: GuardedExpressionMode) -> (request: WhereRequest)
    ensures
        request == (match mode {
            GuardedExpressionMode::Infer => WhereRequest {
                mode: WhereExpressionMode::Infer,
                subsume: None,
            },
            GuardedExpressionMode::Subsume { expected } => WhereRequest {
                mode: WhereExpressionMode::Infer,
                subsume: Some(expected),
            },
            GuardedExpressionMode::Check { expected } => WhereRequest {
                mode: WhereExpressionMode::Check { expected },
                subsume: None,
            },
        }),
{
    match mode {
        GuardedExpressionMode::Infer => WhereRequest {
            mode: WhereExpressionMode::Infer,
            subsume: None,
        },
        GuardedExpressionMode::Subsume { expected } => WhereRequest {
            mode: WhereExpressionMode::Infer,
            subsume: Some(expected),
        },
        GuardedExpressionMode::Check { expected } => WhereRequest {
            mode: WhereExpressionMode::Check { expected },
            subsume: None,
        },
    }
}

/// A guarded expression without conditions, whose expression has been elaborated.
/// An error stands in place of one that is missing.
pub fn unconditional_expression(
    state: &mut CheckState,
    types: &mut Types,
    where_expression: Option<ElaboratedWhereExpression>,
    mode: GuardedExpressionMode,
) -> (guarded: ElaboratedGuardedExpression)
    requires
        old(types)@.wf(),
        old(state).checked.tree@.expressions.len() <= u32::MAX,
    ensures
        final(types)@.wf(),
        extends(old(types)@, final(types)@),
        final(types)@ == (if where_expression is None && mode is Infer {
            old(types)@.with_unknown("missing guarded expression"@).0
        } else {
            old(types)@
        }),
        match where_expression {
            Some(where_expression) => {
                &&& *final(state) == *old(state)
                &&& guarded.type_id == where_expression.type_id
                &&& is_unconditional(
                    guarded.guarded_expression,
                    where_expression.where_expression,
                )
            },
            None => {
                &&& missing_added(
                    *old(state),
                    *final(state),
                    final(types)@,
                    expected_in(mode),
                    "missing guarded expression"@,
                    guarded.type_id,
                )
                &&& guarded.guarded_expression.alternatives@.len() == 1
                &&& guarded.guarded_expression.alternatives@[0].pattern_guards@.len() == 0
                &&& is_plain(
                    guarded.guarded_expression.alternatives@[0].where_expression,
                    old(state).checked.tree@.next_expression(),
                )
            },
        },
{
    match where_expression {
        Some(where_expression) => {
            let type_id = where_expression.type_id;
            let guarded_expression = GuardedExpression::unconditional(
                where_expression.where_expression,
            );
            ElaboratedGuardedExpression { type_id, guarded_expression }
        },
        None => {
            let type_id = match mode {
                GuardedExpressionMode::Infer => types.unknown("missing guarded expression"),
                GuardedExpressionMode::Subsume { expected } => expected,
                GuardedExpressionMode::Check { expected } => expected,
            };
            let expression = state.allocate_error_expression(type_id);
            let guarded_expression = GuardedExpression::unconditional(
                WhereExpression::new(expression),
            );
            ElaboratedGuardedExpression { type_id, guarded_expression }
        },
    }
}

/// The type that the alternatives of a guarded expression are checked against.
pub fn conditional_type(
    state: &mut CheckState,
    types: &mut Types,
    prim: &Prim,
    mode: GuardedExpressionMode,
) -> (type_id: TypeId)
    requires
        old(types)@.wf(),
        old(state).unifications.wf(),
        !old(state).unifications.is_frozen(),
        old(state).unifications@.len() < u32::MAX,
    ensures
        final(types)@.wf(),
        extends(old(types)@, final(types)@),
        final(types)@ == (if mode is Infer {
            old(types)@.with_variable(old(state).unifications@.len())
        } else {
            old(types)@
        }),
        match expected_in(mode) {
            Some(expected) => type_id == expected && *final(state) == *old(state),
            None => unification_added(*old(state), *final(state), prim.t) && is_variable(
                final(types)@,
                type_id,
                old(state).unifications@.len(),
            ),
        },
{
    match mode {
        GuardedExpressionMode::Infer => state.fresh_unification(types, prim.t),
        GuardedExpressionMode::Subsume { expected } => expected,
        GuardedExpressionMode::Check { expected } => expected,
    }
}

/// An alternative whose guards and expression have been checked. An error stands in
/// place of an expression that is missing.
pub fn guarded_alternative(
    state: &mut CheckState,
    pattern_guards: Vec<PatternGuard>,
    where_expression: Option<ElaboratedWhereExpression>,
    expected_type: TypeId,
) -> (alternative: GuardedAlternative)
    requires
        old(state).checked.tree@.expressions.len() <= u32::MAX,
    ensures
        alternative.pattern_guards == pattern_guards,
        match where_expression {
            Some(where_expression) => {
                &&& *final(state) == *old(state)
                &&& alternative.where_expression == where_expression.where_expression
            },
            None => {
                let missing = old(state).checked.tree@.next_expression();
                &&& error_allocated(
                    *old(state),
                    *final(state),
                    ElaboratedExpression { type_id: expected_type, expression: missing },
                )
                &&& is_plain(alternative.where_expression, missing)
            },
        },
{
    let where_expression = match where_expression {
        Some(where_expression) => where_expression.where_expression,
        None => {
            let expression = state.allocate_error_expression(expected_type);
            WhereExpression::new(expression)
        },
    };
    GuardedAlternative { pattern_guards, where_expression }
}

/// A guarded expression whose alternatives have been checked.
pub fn conditional_expression(alternatives: Vec<GuardedAlternative>, expected_type: TypeId) -> (
guarded: ElaboratedGuardedExpression)
    ensures
        guarded.type_id == expected_type,
        guarded.guarded_expression.alternatives == alternatives,
{
    ElaboratedGuardedExpression {
        type_id: expected_type,
        guarded_expression: GuardedExpression { alternatives },
    }
}

// Pattern guards

/// A guard of the source.
#[derive(Clone, Copy, Debug, PartialEq, Eq, Structural)]
pub struct SourcePatternGuard {
    pub binder: Option<SourceBinderId>,
    pub expression: Option<SourceExpressionId>,
}

/// What has to be elaborated for a guard.
#[allow(inconsistent_fields)]
#[derive(Clone, Copy, Debug, PartialEq, Eq, Structural)]
pub enum PatternGuardRequest {
    /// The expression has to be inferred and instantiated, and the binder to be
    /// checked against its type.
    Pattern { binder: SourceBinderId, expression: SourceExpressionId },
    /// The binder has to be inferred.
    Binder { binder: SourceBinderId },
    /// The expression has to be checked against the type of booleans.
    Boolean { expression: SourceExpressionId },
    /// Nothing is there.
    Missing,
}

/// What a guard asks for.
pub open spec fn guard_requested(guard: SourcePatternGuard) -> PatternGuardRequest {
    match (guard.binder, guard.expression) {
        (Some(binder), Some(expression)) => PatternGuardRequest::Pattern { binder, expression },
        (Some(binder), None) => PatternGuardRequest::Binder { binder },
        (None, Some(expression)) => PatternGuardRequest::Boolean { expression },
        (None, None) => PatternGuardRequest::Missing,
    }
}

pub fn pattern_guard_request(guard: SourcePatternGuard) -> (request: PatternGuardRequest)
    ensures
        request == guard_requested(guard),
{
    match (guard.binder, guard.expression) {
        (Some(binder), Some(expression)) => PatternGuardRequest::Pattern { binder, expression },
        (Some(binder), None) => PatternGuardRequest::Binder { binder },
        (None, Some(expression)) => PatternGuardRequest::Boolean { expression },
        (None, None) => PatternGuardRequest::Missing,
    }
}

/// A guard whose parts have been elaborated. An error stands in place of an
/// expression that is missing: one of the binder's type, or a boolean.
pub fn check_pattern_guard(
    state: &mut CheckState,
    prim: &Prim,
    binder: Option<ElaboratedBinder>,
    expression: Option<ElaboratedExpression>,
) -> (guard: PatternGuard)
    requires
        old(state).checked.tree@.expressions.len() <= u32::MAX,
    ensures
        ({
            let missing = old(state).checked.tree@.next_expression();
            let type_id = match binder {
                Some(binder) => binder.type_id,
                None => prim.boolean,
            };
            let inner = match expression {
                Some(expression) => expression.expression,
                None => missing,
            };
            &&& guard == (match binder {
                Some(binder) => PatternGuard::Pattern {
                    binder: binder.binder,
                    expression: inner,
                },
                None => PatternGuard::Boolean { expression: inner },
            })
            &&& expression is Some ==> *final(state) == *old(state)
            &&& expression is None ==> error_allocated(
                *old(state),
                *final(state),
                ElaboratedExpression { type_id, expression: missing },
            )
        }),
{
    let type_id = match binder {
        Some(binder) => binder.type_id,
        None => prim.boolean,
    };
    let inner = match expression {
        Some(expression) => expression.expression,
        None => state.allocate_error_expression(type_id),
    };
    match binder {
        Some(binder) => PatternGuard::Pattern { binder: binder.binder, expression: inner },
        None => PatternGuard::Boolean { expression: inner },
    }
}

// Where expressions

/// A where expression whose expression has been made a subtype of the type
/// expected. The bindings stay.
pub fn subsume_where_expression(
    where_expression: ElaboratedWhereExpression,
    subsumed: ElaboratedExpression,
    expected: TypeId,
) -> (elaborated: ElaboratedWhereExpression)
    ensures
        elaborated.type_id == expected,
        elaborated.where_expression == (WhereExpression {
            expression: subsumed.expression,
            bindings: where_expression.where_expression.bindings,
        }),
{
    let bindings = where_expression.where_expression.bindings;
    ElaboratedWhereExpression {
        type_id: expected,
        where_expression: WhereExpression { expression: subsumed.expression, bindings },
    }
}

/// A where expression whose bindings have been checked and whose expression has
/// been elaborated. An error stands in place of an expression that is missing.
pub fn where_expression_core(
    state: &mut CheckState,
    types: &mut Types,
    bindings: LetBindings,
    expression: Option<ElaboratedExpression>,
    mode: WhereExpressionMode,
) -> (elaborated: ElaboratedWhereExpression)
    requires
        old(types)@.wf(),
        old(state).checked.tree@.expressions.len() <= u32::MAX,
    ensures
        final(types)@.wf(),
        extends(old(types)@, final(types)@),
        final(types)@ == (if expression is None && mode is Infer {
            old(types)@.with_unknown("missing where expression"@).0
        } else {
            old(types)@
        }),
        elaborated.where_expression.bindings == bindings,
        match expression {
            Some(expression) => {
                &&& *final(state) == *old(state)
                &&& elaborated.type_id == expression.type_id
                &&& elaborated.where_expression.expression == expression.expression
            },
            None => {
                &&& missing_added(
                    *old(state),
                    *final(state),
                    final(types)@,
                    match mode {
                        WhereExpressionMode::Infer => None,
                        WhereExpressionMode::Check { expected } => Some(expected),
                    },
                    "missing where expression"@,
                    elaborated.type_id,
                )
                &&& elaborated.where_expression.expression == old(
                    state,
                ).checked.tree@.next_expression()
            },
        },
{
    match expression {
        Some(expression) => ElaboratedWhereExpression {
            type_id: expression.type_id,
            where_expression: WhereExpression { bindings, expression: expression.expression },
        },
        None => {
            let type_id = match mode {
                WhereExpressionMode::Infer => types.unknown("missing where expression"),
                WhereExpressionMode::Check { expected } => expected,
            };
            let expression = state.allocate_error_expression(type_id);
            ElaboratedWhereExpression {
                type_id,
                where_expression: WhereExpression { bindings, expression },
            }
        },
    }
}

// Alternatives

/// An alternative of the source: its guards, and whether something stands behind
/// them.
#[derive(Debug)]
pub struct SourceAlternative {
    pub pattern_guards: Vec<SourcePatternGuard>,
    pub has_where: bool,
}

/// How far the alternatives of a guarded expression have been elaborated: the
/// ones that are done, and the guards of the one that is under way.
#[derive(Debug)]
pub struct GuardedProgress {
    pub alternatives: Vec<GuardedAlternative>,
    pub pattern_guards: Vec<PatternGuard>,
}

/// What is to be done next with the alternatives of a guarded expression.
#[derive(Clone, Copy, Debug, PartialEq, Eq, Structural)]
pub enum GuardedStep {
    CheckGuard { request: PatternGuardRequest },
    /// What stands behind the guards is checked.
    CheckWhere { alternative: usize },
    /// Nothing stands behind the guards.
    MissingWhere,
    Done,
}

impl GuardedProgress {
    /// The alternatives that are done, and the guards of the next one, are those of
    /// the source, in order.
    pub open spec fn follows(self, sources: Seq<SourceAlternative>) -> bool {
        &&& self.alternatives@.len() <= sources.len()
        &&& forall|i: int|
            0 <= i < self.alternatives@.len() ==> (#[trigger] self.alternatives@[
                i
            ]).pattern_guards@.len() == sources[i].pattern_guards@.len()
        &&& if self.alternatives@.len() < sources.len() {
            self.pattern_guards@.len()
                <= sources[self.alternatives@.len() as int].pattern_guards@.len()
        } else {
            self.pattern_guards@.len() == 0
        }
    }

    pub fn new() -> (progress: GuardedProgress)
        ensures
            progress.alternatives@.len() == 0,
            progress.pattern_guards@.len() == 0,
            forall|sources: Seq<SourceAlternative>| #[trigger] progress.follows(sources),
    {
        GuardedProgress { alternatives: Vec::new(), pattern_guards: Vec::new() }
    }

    /// What is to be done next.
    pub fn step(&self, sources: &Vec<SourceAlternative>) -> (step: GuardedStep)
        requires
            self.follows(sources@),
        ensures
            ({
                let count = self.alternatives@.len();
                let position = self.pattern_guards@.len();
                step == (if count == sources@.len() {
                    GuardedStep::Done
                } else if position < sources@[count as int].pattern_guards@.len() {
                    GuardedStep::CheckGuard {
                        request: guard_requested(
                            sources@[count as int].pattern_guards@[position as int],
                        ),
                    }
                } else if sources@[count as int].has_where {
                    GuardedStep::CheckWhere { alternative: count as usize }
                } else {
                    GuardedStep::MissingWhere
                })
            }),
    {
        let count: usize = self.alternatives.len();
        if count == sources.len() {
            return GuardedStep::Done;
        }
        let position: usize = self.pattern_guards.len();
        let source = &sources[count];
        if position < source.pattern_guards.len() {
            let request = pattern_guard_request(source.pattern_guards[position]);
            GuardedStep::CheckGuard { request }
        } else if source.has_where {
            GuardedStep::CheckWhere { alternative: count }
        } else {
            GuardedStep::MissingWhere
        }
    }

    /// One more guard of the alternative under way has been elaborated.
    pub fn push_guard(&mut self, guard: PatternGuard)
        ensures
            final(self).alternatives == old(self).alternatives,
            final(self).pattern_guards@ == old(self).pattern_guards@.push(guard),
            forall|sources: Seq<SourceAlternative>| #[trigger]
                old(self).follows(sources) && old(self).alternatives@.len() < sources.len()
                    && old(self).pattern_guards@.len()
                    < sources[old(self).alternatives@.len() as int].pattern_guards@.len()
                    ==> final(self).follows(sources),
    {
        self.pattern_guards.push(guard);
    }

    /// The alternative under way is done. Where nothing stands behind its guards,
    /// there is an error in that place.
    pub fn push_alternative(
        &mut self,
        state: &mut CheckState,
        where_expression: Option<ElaboratedWhereExpression>,
        expected_type: TypeId,
    )
        requires
            old(state).checked.tree@.expressions.len() <= u32::MAX,
        ensures
            final(self).pattern_guards@.len() == 0,
            final(self).alternatives@.len() == old(self).alternatives@.len() + 1,
            final(self).alternatives@.drop_last() == old(self).alternatives@,
            final(self).alternatives@.last().pattern_guards == old(self).pattern_guards,
            match where_expression {
                Some(where_expression) => {
                    &&& *final(state) == *old(state)
                    &&& final(self).alternatives@.last().where_expression
                        == where_expression.where_expression
                },
                None => {
                    let missing = old(state).checked.tree@.next_expression();
                    &&& error_allocated(
                        *old(state),
                        *final(state),
                        ElaboratedExpression { type_id: expected_type, expression: missing },
                    )
                    &&& is_plain(final(self).alternatives@.last().where_expression, missing)
                },
            },
            forall|sources: Seq<SourceAlternative>| #[trigger]
                old(self).follows(sources) && old(self).alternatives@.len() < sources.len()
                    && old(self).pattern_guards@.len()
                    == sources[old(self).alternatives@.len() as int].pattern_guards@.len()
                    ==> final(self).follows(sources),
    {
        let ghost before = *self;
        let mut pattern_guards: Vec<PatternGuard> = Vec::new();
        std::mem::swap(&mut self.pattern_guards, &mut pattern_guards);
        let alternative = guarded_alternative(
            state,
            pattern_guards,
            where_expression,
            expected_type,
        );
        self.alternatives.push(alternative);
        assert(self.alternatives@.drop_last() =~= before.alternatives@);
        assert forall|sources: Seq<SourceAlternative>| #[trigger]
            before.follows(sources) && before.alternatives@.len() < sources.len()
                && before.pattern_guards@.len()
                == sources[before.alternatives@.len() as int].pattern_guards@.len() implies self.follows(
            sources,
        ) by {
            assert forall|i: int| 0 <= i < self.alternatives@.len() implies (
            #[trigger] self.alternatives@[i]).pattern_guards@.len()
                == sources[i].pattern_guards@.len() by {
                if i < before.alternatives@.len() {
                    assert(self.alternatives@[i] == before.alternatives@[i]);
                }
            }
        }
    }

    /// All alternatives are done.
    pub fn finish(self, expected_type: TypeId) -> (guarded: ElaboratedGuardedExpression)
        ensures
            guarded.type_id == expected_type,
            guarded.guarded_expression.alternatives == self.alternatives,
    {
        conditional_expression(self.alternatives, expected_type)
    }
}

} // verus!
