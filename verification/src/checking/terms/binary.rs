//! Functions that are applied to two arguments, step by step: the actions of blocks
//! and functions in backticks.
//!
//! Progress tells what is asked next of the rest of the checker, and takes the
//! answer.

use super::super::lowering::SourceExpressionId;
use super::super::state::CheckState;
use super::super::types::{extends, Type, TypeId, TypeStore, Types};
use super::application::{
    applied_to, begin_infix_pair, error_allocated, evidence_nodes, grown_by, invalid_application,
    materialize_application, only_expressions_added, stands, ElaboratedExpression, InfixPair,
    UnanchoredApplication,
};
use super::form_ado::{
    infer_ado_application_core, invalid_ado_application, CheckedAdoApplication,
};
use super::form_do::{
    apply_do_function, do_lambda_type, function_kind, infer_do_bind_core, invalid_do_application,
    invalid_do_store, is_do_application, is_invalid_do, CheckedDoApplication, DesugaredFunction,
};
use vstd::prelude::*;

verus! {

/// What is asked of the rest of the checker.
#[allow(inconsistent_fields)]
#[derive(Clone, Copy, Debug, PartialEq, Eq, Structural)]
pub enum ApplicationRequest {
    Infer { expression: SourceExpressionId },
    Check { expression: SourceExpressionId, expected: TypeId },
    /// The argument that a function of the type takes.
    Apply { function: TypeId },
    /// The expression has to be of a subtype.
    Subsume { expression: ElaboratedExpression, expected: TypeId },
    /// The type has to be a subtype.
    Relate { actual: TypeId, expected: TypeId },
}

/// What the rest of the checker answers.
#[derive(Debug)]
pub enum ApplicationAnswer {
    Expression(ElaboratedExpression),
    Application(Option<UnanchoredApplication>),
    Related,
}

/// The answer is of the kind that is asked for.
pub open spec fn is_answered(request: ApplicationRequest, answer: ApplicationAnswer) -> bool {
    match request {
        ApplicationRequest::Infer { .. } => answer is Expression,
        ApplicationRequest::Check { .. } => answer is Expression,
        ApplicationRequest::Subsume { .. } => answer is Expression,
        ApplicationRequest::Apply { .. } => answer is Application,
        ApplicationRequest::Relate { .. } => answer is Related,
    }
}

// Actions of `do` blocks

/// An action of a `do` block: the function that it is an argument of, the type of
/// its binder, its own type and that of what follows.
#[derive(Clone, Copy, Debug, PartialEq, Eq, Structural)]
pub struct DoAction {
    pub function: DesugaredFunction,
    pub expression: SourceExpressionId,
    pub binder_type: TypeId,
    pub now: TypeId,
    pub next: TypeId,
}

/// How far the application of a block's function to an action has come.
#[allow(inconsistent_fields)]
#[derive(Debug)]
pub enum DoProgress {
    Begun,
    Inferred { expression: ElaboratedExpression, lambda_type: TypeId },
    First {
        expression: ElaboratedExpression,
        lambda_type: TypeId,
        first: UnanchoredApplication,
    },
    Applied { applied: ElaboratedExpression, lambda_type: TypeId, first: UnanchoredApplication },
    Second {
        applied: ElaboratedExpression,
        lambda_type: TypeId,
        first: UnanchoredApplication,
        second: UnanchoredApplication,
    },
    Continued {
        applied: ElaboratedExpression,
        lambda_type: TypeId,
        first: UnanchoredApplication,
        second: UnanchoredApplication,
    },
    Invalid { application: CheckedDoApplication, result: TypeId },
    Done { application: CheckedDoApplication },
}

impl DoProgress {
    /// What is asked next; nothing once the application is done.
    pub open spec fn requested(self, action: DoAction) -> Option<ApplicationRequest> {
        match self {
            DoProgress::Begun => Some(
                ApplicationRequest::Infer { expression: action.expression },
            ),
            DoProgress::Inferred { .. } => Some(
                ApplicationRequest::Apply { function: action.function.type_id },
            ),
            DoProgress::First { expression, first, .. } => Some(
                ApplicationRequest::Subsume { expression, expected: first.argument },
            ),
            DoProgress::Applied { applied, .. } => Some(
                ApplicationRequest::Apply { function: applied.type_id },
            ),
            DoProgress::Second { lambda_type, second, .. } => Some(
                ApplicationRequest::Relate { actual: lambda_type, expected: second.argument },
            ),
            DoProgress::Continued { second, .. } => Some(
                ApplicationRequest::Relate { actual: second.result, expected: action.now },
            ),
            DoProgress::Invalid { result, .. } => Some(
                ApplicationRequest::Relate { actual: result, expected: action.now },
            ),
            DoProgress::Done { .. } => None,
        }
    }

    /// How many answers are still to come at most.
    pub open spec fn remaining(self) -> nat {
        match self {
            DoProgress::Begun => 6,
            DoProgress::Inferred { .. } => 5,
            DoProgress::First { .. } => 4,
            DoProgress::Applied { .. } => 3,
            DoProgress::Second { .. } => 2,
            DoProgress::Continued { .. } => 1,
            DoProgress::Invalid { .. } => 1,
            DoProgress::Done { .. } => 0,
        }
    }

    /// How many expressions the next answer can add.
    pub open spec fn room(self) -> nat {
        match self {
            DoProgress::First { first, .. } => evidence_nodes(first.implicit@) + 2,
            DoProgress::Inferred { .. } => 1,
            DoProgress::Applied { .. } => 1,
            _ => 0,
        }
    }

    pub fn request(&self, action: DoAction) -> (request: Option<ApplicationRequest>)
        ensures
            request == self.requested(action),
    {
        match self {
            DoProgress::Begun => Some(
                ApplicationRequest::Infer { expression: action.expression },
            ),
            DoProgress::Inferred { .. } => Some(
                ApplicationRequest::Apply { function: action.function.type_id },
            ),
            DoProgress::First { expression, first, .. } => Some(
                ApplicationRequest::Subsume { expression: *expression, expected: first.argument },
            ),
            DoProgress::Applied { applied, .. } => Some(
                ApplicationRequest::Apply { function: applied.type_id },
            ),
            DoProgress::Second { lambda_type, second, .. } => Some(
                ApplicationRequest::Relate { actual: *lambda_type, expected: second.argument },
            ),
            DoProgress::Continued { second, .. } => Some(
                ApplicationRequest::Relate { actual: second.result, expected: action.now },
            ),
            DoProgress::Invalid { result, .. } => Some(
                ApplicationRequest::Relate { actual: *result, expected: action.now },
            ),
            DoProgress::Done { .. } => None,
        }
    }

    /// Takes an answer. A function that takes no argument makes the application an
    /// error.
    pub fn advance(
        self,
        state: &mut CheckState,
        types: &mut Types,
        action: DoAction,
        answer: ApplicationAnswer,
    ) -> (after: DoProgress)
        requires
            self.requested(action) matches Some(request) && is_answered(request, answer),
            old(state).checked.tree@.expressions.len() + self.room() <= u32::MAX,
            old(types)@.wf(),
        ensures
            final(types)@.wf(),
            extends(old(types)@, final(types)@),
            final(types)@ == (match (self, answer) {
                (DoProgress::Begun, _) => old(types)@.with_type(
                    Type::Function(action.binder_type, action.next),
                ),
                (
                    DoProgress::Inferred { lambda_type, .. },
                    ApplicationAnswer::Application(None),
                ) => invalid_do_store(old(types)@, lambda_type),
                (
                    DoProgress::Applied { lambda_type, .. },
                    ApplicationAnswer::Application(None),
                ) => invalid_do_store(old(types)@, lambda_type),
                _ => old(types)@,
            }),
            after.remaining() < self.remaining(),
            match (self, answer) {
                (DoProgress::Begun, ApplicationAnswer::Expression(inferred)) => {
                    &&& *final(state) == *old(state)
                    &&& after matches DoProgress::Inferred { expression, lambda_type }
                        && expression == inferred && final(types)@.denotes(
                        lambda_type,
                        Type::Function(action.binder_type, action.next),
                    )
                },
                (
                    DoProgress::Inferred { expression, lambda_type },
                    ApplicationAnswer::Application(Some(first)),
                ) => {
                    &&& *final(state) == *old(state)
                    &&& after == (DoProgress::First { expression, lambda_type, first })
                },
                (
                    DoProgress::First { lambda_type, first, .. },
                    ApplicationAnswer::Expression(subsumed),
                ) => {
                    let head = old(state).checked.tree@.next_expression();
                    &&& grown_by(*old(state), *final(state), evidence_nodes(first.implicit@) + 2)
                    &&& stands(
                        final(state).checked.tree@,
                        head,
                        action.function.type_id,
                        function_kind(action.function.resolution),
                    )
                    &&& after matches DoProgress::Applied {
                        applied,
                        lambda_type: same,
                        first: kept,
                    }
                    &&& same == lambda_type
                    &&& kept == first
                    &&& applied.type_id == first.result
                    &&& applied_to(
                        final(state).checked.tree@,
                        head,
                        first.implicit@,
                        subsumed.expression,
                        applied.expression,
                        first.result,
                    )
                },
                (
                    DoProgress::Applied { applied, lambda_type, first },
                    ApplicationAnswer::Application(Some(second)),
                ) => {
                    &&& *final(state) == *old(state)
                    &&& after == (DoProgress::Second { applied, lambda_type, first, second })
                },
                (
                    DoProgress::Inferred { lambda_type, .. },
                    ApplicationAnswer::Application(None),
                ) => after matches DoProgress::Invalid { application, result } && is_invalid_do(
                    *old(state),
                    *final(state),
                    final(types)@,
                    lambda_type,
                    action.now,
                    (application, result),
                ),
                (
                    DoProgress::Applied { lambda_type, .. },
                    ApplicationAnswer::Application(None),
                ) => after matches DoProgress::Invalid { application, result } && is_invalid_do(
                    *old(state),
                    *final(state),
                    final(types)@,
                    lambda_type,
                    action.now,
                    (application, result),
                ),
                (DoProgress::Second { applied, lambda_type, first, second }, _) => {
                    &&& *final(state) == *old(state)
                    &&& after == (DoProgress::Continued { applied, lambda_type, first, second })
                },
                (DoProgress::Continued { applied, lambda_type, first, second }, _) => {
                    &&& *final(state) == *old(state)
                    &&& after matches DoProgress::Done { application } && is_do_application(
                        *old(state),
                        applied,
                        first,
                        second,
                        lambda_type,
                        action.now,
                        application,
                    )
                },
                (DoProgress::Invalid { application, .. }, _) => {
                    &&& *final(state) == *old(state)
                    &&& after == (DoProgress::Done { application })
                },
                _ => false,
            },
    {
        match (self, answer) {
            (DoProgress::Begun, ApplicationAnswer::Expression(expression)) => {
                let lambda_type = do_lambda_type(types, action.binder_type, action.next);
                DoProgress::Inferred { expression, lambda_type }
            },
            (
                DoProgress::Inferred { expression, lambda_type },
                ApplicationAnswer::Application(Some(first)),
            ) => DoProgress::First { expression, lambda_type, first },
            (
                DoProgress::First { lambda_type, first, .. },
                ApplicationAnswer::Expression(subsumed),
            ) => {
                let applied = apply_do_function(state, &action.function, &first, subsumed);
                DoProgress::Applied { applied, lambda_type, first }
            },
            (
                DoProgress::Applied { applied, lambda_type, first },
                ApplicationAnswer::Application(Some(second)),
            ) => DoProgress::Second { applied, lambda_type, first, second },
            (DoProgress::Inferred { lambda_type, .. }, _) => {
                let (application, result) = invalid_do_application(
                    state,
                    types,
                    lambda_type,
                    action.now,
                );
                DoProgress::Invalid { application, result }
            },
            (DoProgress::Applied { lambda_type, .. }, _) => {
                let (application, result) = invalid_do_application(
                    state,
                    types,
                    lambda_type,
                    action.now,
                );
                DoProgress::Invalid { application, result }
            },
            (DoProgress::Second { applied, lambda_type, first, second }, _) => {
                DoProgress::Continued { applied, lambda_type, first, second }
            },
            (DoProgress::Continued { applied, lambda_type, first, second }, _) => {
                let application = infer_do_bind_core(
                    state,
                    applied,
                    first,
                    second,
                    lambda_type,
                    action.now,
                );
                DoProgress::Done { application }
            },
            (DoProgress::Invalid { application, .. }, _) => DoProgress::Done { application },
            (unanswered, _) => unanswered,
        }
    }
}

// Actions of `ado` blocks

/// An action of an `ado` block: the function that it is the second argument of, and
/// the type of the first one.
#[derive(Clone, Copy, Debug, PartialEq, Eq, Structural)]
pub struct AdoAction {
    pub function: DesugaredFunction,
    pub expression: SourceExpressionId,
    pub first_argument: TypeId,
}

/// How far the application of a block's function to an action has come.
#[allow(inconsistent_fields)]
#[derive(Debug)]
pub enum AdoProgress {
    Begun,
    Inferred { expression: ElaboratedExpression },
    First { expression: ElaboratedExpression, first: UnanchoredApplication },
    Related { expression: ElaboratedExpression, first: UnanchoredApplication },
    Second {
        expression: ElaboratedExpression,
        first: UnanchoredApplication,
        second: UnanchoredApplication,
    },
    Done { application: CheckedAdoApplication },
}

impl AdoProgress {
    /// What is asked next; nothing once the application is done.
    pub open spec fn requested(self, action: AdoAction) -> Option<ApplicationRequest> {
        match self {
            AdoProgress::Begun => Some(
                ApplicationRequest::Infer { expression: action.expression },
            ),
            AdoProgress::Inferred { .. } => Some(
                ApplicationRequest::Apply { function: action.function.type_id },
            ),
            AdoProgress::First { first, .. } => Some(
                ApplicationRequest::Relate {
                    actual: action.first_argument,
                    expected: first.argument,
                },
            ),
            AdoProgress::Related { first, .. } => Some(
                ApplicationRequest::Apply { function: first.result },
            ),
            AdoProgress::Second { expression, second, .. } => Some(
                ApplicationRequest::Subsume { expression, expected: second.argument },
            ),
            AdoProgress::Done { .. } => None,
        }
    }

    /// How many answers are still to come at most.
    pub open spec fn remaining(self) -> nat {
        match self {
            AdoProgress::Begun => 5,
            AdoProgress::Inferred { .. } => 4,
            AdoProgress::First { .. } => 3,
            AdoProgress::Related { .. } => 2,
            AdoProgress::Second { .. } => 1,
            AdoProgress::Done { .. } => 0,
        }
    }

    pub fn request(&self, action: AdoAction) -> (request: Option<ApplicationRequest>)
        ensures
            request == self.requested(action),
    {
        match self {
            AdoProgress::Begun => Some(
                ApplicationRequest::Infer { expression: action.expression },
            ),
            AdoProgress::Inferred { .. } => Some(
                ApplicationRequest::Apply { function: action.function.type_id },
            ),
            AdoProgress::First { first, .. } => Some(
                ApplicationRequest::Relate {
                    actual: action.first_argument,
                    expected: first.argument,
                },
            ),
            AdoProgress::Related { first, .. } => Some(
                ApplicationRequest::Apply { function: first.result },
            ),
            AdoProgress::Second { expression, second, .. } => Some(
                ApplicationRequest::Subsume {
                    expression: *expression,
                    expected: second.argument,
                },
            ),
            AdoProgress::Done { .. } => None,
        }
    }

    /// Takes an answer. A function that takes no argument makes the application an
    /// error.
    pub fn advance(
        self,
        state: &mut CheckState,
        types: &mut Types,
        action: AdoAction,
        answer: ApplicationAnswer,
    ) -> (after: AdoProgress)
        requires
            self.requested(action) matches Some(request) && is_answered(request, answer),
            old(state).checked.tree@.expressions.len() <= u32::MAX,
            old(types)@.wf(),
        ensures
            final(types)@.wf(),
            extends(old(types)@, final(types)@),
            final(types)@ == (match answer {
                ApplicationAnswer::Application(None) => old(types)@.with_unknown(
                    "invalid function application"@,
                ).0,
                _ => old(types)@,
            }),
            after.remaining() < self.remaining(),
            !(self is Second) ==> *final(state) == *old(state),
            match (self, answer) {
                (AdoProgress::Begun, ApplicationAnswer::Expression(expression)) => after == (
                AdoProgress::Inferred { expression }),
                (
                    AdoProgress::Inferred { expression },
                    ApplicationAnswer::Application(Some(first)),
                ) => after == (AdoProgress::First { expression, first }),
                (AdoProgress::First { expression, first }, _) => after == (
                AdoProgress::Related { expression, first }),
                (
                    AdoProgress::Related { expression, first },
                    ApplicationAnswer::Application(Some(second)),
                ) => after == (AdoProgress::Second { expression, first, second }),
                (
                    AdoProgress::Second { first, second, .. },
                    ApplicationAnswer::Expression(argument),
                ) => {
                    let function = action.function;
                    &&& only_expressions_added(*old(state), *final(state))
                    &&& final(state).checked.tree@ == old(state).checked.tree@.with_expression(
                        function.type_id,
                        function_kind(function.resolution),
                    )
                    &&& after == (AdoProgress::Done {
                        application: CheckedAdoApplication::Application {
                            function: ElaboratedExpression {
                                type_id: function.type_id,
                                expression: old(state).checked.tree@.next_expression(),
                            },
                            first_implicit: first.implicit,
                            first_result: first.result,
                            second_implicit: second.implicit,
                            argument,
                            result: second.result,
                        },
                    })
                },
                _ => after matches AdoProgress::Done { application } && application is Error
                    && final(types)@.is_unknown(
                    application.yields(),
                    "invalid function application"@,
                ),
            },
    {
        match (self, answer) {
            (AdoProgress::Begun, ApplicationAnswer::Expression(expression)) => {
                AdoProgress::Inferred { expression }
            },
            (
                AdoProgress::Inferred { expression },
                ApplicationAnswer::Application(Some(first)),
            ) => AdoProgress::First { expression, first },
            (AdoProgress::First { expression, first }, _) => {
                AdoProgress::Related { expression, first }
            },
            (
                AdoProgress::Related { expression, first },
                ApplicationAnswer::Application(Some(second)),
            ) => AdoProgress::Second { expression, first, second },
            (
                AdoProgress::Second { first, second, .. },
                ApplicationAnswer::Expression(argument),
            ) => {
                let application = infer_ado_application_core(
                    state,
                    &action.function,
                    first,
                    second,
                    argument,
                );
                AdoProgress::Done { application }
            },
            _ => AdoProgress::Done { application: invalid_ado_application(types) },
        }
    }
}

// Functions in backticks

/// How far a chain of functions in backticks has come. The index is that of the
/// function that is applied next or is being applied.
#[allow(inconsistent_fields)]
#[derive(Debug)]
pub enum InfixProgress {
    Head,
    Begun {
        infix: ElaboratedExpression,
        index: usize,
        tick: SourceExpressionId,
        element: SourceExpressionId,
    },
    Ticked {
        infix: ElaboratedExpression,
        index: usize,
        tick: ElaboratedExpression,
        element: SourceExpressionId,
    },
    First {
        infix: ElaboratedExpression,
        index: usize,
        tick: ElaboratedExpression,
        element: SourceExpressionId,
        first: UnanchoredApplication,
    },
    Applied { index: usize, applied: ElaboratedExpression, element: SourceExpressionId },
    Second {
        index: usize,
        applied: ElaboratedExpression,
        element: SourceExpressionId,
        second: UnanchoredApplication,
    },
    Done { expression: ElaboratedExpression },
}

/// The chain goes on with the function at the index, or ends: with what there is, or
/// with an error where the function or its operand is missing.
pub open spec fn infix_continued(
    before: CheckState,
    after: CheckState,
    store: TypeStore,
    tail: Seq<InfixPair>,
    infix: ElaboratedExpression,
    index: nat,
    progress: InfixProgress,
) -> bool {
    if index < tail.len() {
        match (tail[index as int].tick, tail[index as int].element) {
            (Some(tick), Some(element)) => {
                &&& progress == (InfixProgress::Begun {
                    infix,
                    index: index as usize,
                    tick,
                    element,
                })
                &&& after == before
            },
            (None, _) => progress matches InfixProgress::Done { expression } && error_allocated(
                before,
                after,
                expression,
            ) && store.is_unknown(expression.type_id, "missing infix tick"@),
            (Some(_), None) => progress matches InfixProgress::Done { expression }
                && error_allocated(before, after, expression) && store.is_unknown(
                expression.type_id,
                "missing infix element"@,
            ),
        }
    } else {
        progress == (InfixProgress::Done { expression: infix }) && after == before
    }
}

/// The types that going on with the function at the index adds.
pub open spec fn infix_store(store: TypeStore, tail: Seq<InfixPair>, index: nat) -> TypeStore {
    if index < tail.len() {
        match (tail[index as int].tick, tail[index as int].element) {
            (Some(_), Some(_)) => store,
            (None, _) => store.with_unknown("missing infix tick"@).0,
            (Some(_), None) => store.with_unknown("missing infix element"@).0,
        }
    } else {
        store
    }
}

fn continue_infix(
    state: &mut CheckState,
    types: &mut Types,
    tail: &Vec<InfixPair>,
    infix: ElaboratedExpression,
    index: usize,
) -> (progress: InfixProgress)
    requires
        old(types)@.wf(),
        old(state).checked.tree@.expressions.len() <= u32::MAX,
        index <= tail@.len(),
    ensures
        final(types)@.wf(),
        extends(old(types)@, final(types)@),
        infix_continued(
            *old(state),
            *final(state),
            final(types)@,
            tail@,
            infix,
            index as nat,
            progress,
        ),
        final(types)@ == infix_store(old(types)@, tail@, index as nat),
        progress.remaining(tail@.len()) <= 5 * (tail@.len() - index),
        progress.within(tail@.len()),
{
    if index == tail.len() {
        return InfixProgress::Done { expression: infix };
    }
    match begin_infix_pair(state, types, tail[index]) {
        Ok((tick, element)) => InfixProgress::Begun { infix, index, tick, element },
        Err(expression) => InfixProgress::Done { expression },
    }
}

impl InfixProgress {
    /// What is asked next of a chain with this first operand; nothing once it is
    /// done.
    pub open spec fn requested(self, head: SourceExpressionId) -> Option<ApplicationRequest> {
        match self {
            InfixProgress::Head => Some(ApplicationRequest::Infer { expression: head }),
            InfixProgress::Begun { tick, .. } => Some(
                ApplicationRequest::Infer { expression: tick },
            ),
            InfixProgress::Ticked { tick, .. } => Some(
                ApplicationRequest::Apply { function: tick.type_id },
            ),
            InfixProgress::First { infix, first, .. } => Some(
                ApplicationRequest::Subsume { expression: infix, expected: first.argument },
            ),
            InfixProgress::Applied { applied, .. } => Some(
                ApplicationRequest::Apply { function: applied.type_id },
            ),
            InfixProgress::Second { element, second, .. } => Some(
                ApplicationRequest::Check { expression: element, expected: second.argument },
            ),
            InfixProgress::Done { .. } => None,
        }
    }

    /// The function is one of the chain.
    pub open spec fn within(self, count: nat) -> bool {
        match self {
            InfixProgress::Head => true,
            InfixProgress::Begun { index, .. } => index < count,
            InfixProgress::Ticked { index, .. } => index < count,
            InfixProgress::First { index, .. } => index < count,
            InfixProgress::Applied { index, .. } => index < count,
            InfixProgress::Second { index, .. } => index < count,
            InfixProgress::Done { .. } => true,
        }
    }

    /// How many answers are still to come at most, in a chain of so many functions.
    pub open spec fn remaining(self, count: nat) -> int {
        match self {
            InfixProgress::Head => 5 * count as int + 1,
            InfixProgress::Begun { index, .. } => 5 * (count - index),
            InfixProgress::Ticked { index, .. } => 5 * (count - index) - 1,
            InfixProgress::First { index, .. } => 5 * (count - index) - 2,
            InfixProgress::Applied { index, .. } => 5 * (count - index) - 3,
            InfixProgress::Second { index, .. } => 5 * (count - index) - 4,
            InfixProgress::Done { .. } => 0,
        }
    }

    /// How many expressions the next answer can add.
    pub open spec fn room(self) -> nat {
        match self {
            InfixProgress::First { first, .. } => evidence_nodes(first.implicit@) + 1,
            InfixProgress::Second { second, .. } => evidence_nodes(second.implicit@) + 2,
            _ => 1,
        }
    }

    pub fn request(&self, head: SourceExpressionId) -> (request: Option<ApplicationRequest>)
        ensures
            request == self.requested(head),
    {
        match self {
            InfixProgress::Head => Some(ApplicationRequest::Infer { expression: head }),
            InfixProgress::Begun { tick, .. } => Some(
                ApplicationRequest::Infer { expression: *tick },
            ),
            InfixProgress::Ticked { tick, .. } => Some(
                ApplicationRequest::Apply { function: tick.type_id },
            ),
            InfixProgress::First { infix, first, .. } => Some(
                ApplicationRequest::Subsume { expression: *infix, expected: first.argument },
            ),
            InfixProgress::Applied { applied, .. } => Some(
                ApplicationRequest::Apply { function: applied.type_id },
            ),
            InfixProgress::Second { element, second, .. } => Some(
                ApplicationRequest::Check { expression: *element, expected: second.argument },
            ),
            InfixProgress::Done { .. } => None,
        }
    }

    /// Takes an answer. A function that takes no argument makes the whole chain an
    /// error.
    pub fn advance(
        self,
        state: &mut CheckState,
        types: &mut Types,
        head: SourceExpressionId,
        tail: &Vec<InfixPair>,
        answer: ApplicationAnswer,
    ) -> (after: InfixProgress)
        requires
            self.requested(head) matches Some(request) && is_answered(request, answer),
            self.within(tail@.len()),
            old(state).checked.tree@.expressions.len() + self.room() <= u32::MAX,
            old(types)@.wf(),
        ensures
            final(types)@.wf(),
            extends(old(types)@, final(types)@),
            final(types)@ == (match (self, answer) {
                (_, ApplicationAnswer::Application(None)) => old(types)@.with_unknown(
                    "invalid function application"@,
                ).0,
                (InfixProgress::Head, _) => infix_store(old(types)@, tail@, 0),
                (InfixProgress::Second { index, .. }, _) => infix_store(
                    old(types)@,
                    tail@,
                    (index + 1) as nat,
                ),
                _ => old(types)@,
            }),
            after.within(tail@.len()),
            after.remaining(tail@.len()) < self.remaining(tail@.len()),
            match (self, answer) {
                (InfixProgress::Head, ApplicationAnswer::Expression(infix)) => infix_continued(
                    *old(state),
                    *final(state),
                    final(types)@,
                    tail@,
                    infix,
                    0,
                    after,
                ),
                (
                    InfixProgress::Begun { infix, index, element, .. },
                    ApplicationAnswer::Expression(tick),
                ) => {
                    &&& *final(state) == *old(state)
                    &&& after == (InfixProgress::Ticked { infix, index, tick, element })
                },
                (
                    InfixProgress::Ticked { infix, index, tick, element },
                    ApplicationAnswer::Application(Some(first)),
                ) => {
                    &&& *final(state) == *old(state)
                    &&& after == (InfixProgress::First { infix, index, tick, element, first })
                },
                (
                    InfixProgress::First { index, tick, element, first, .. },
                    ApplicationAnswer::Expression(infix),
                ) => {
                    &&& grown_by(*old(state), *final(state), evidence_nodes(first.implicit@) + 1)
                    &&& after matches InfixProgress::Applied {
                        index: same,
                        applied,
                        element: kept,
                    }
                    &&& same == index
                    &&& kept == element
                    &&& applied.type_id == first.result
                    &&& applied_to(
                        final(state).checked.tree@,
                        tick.expression,
                        first.implicit@,
                        infix.expression,
                        applied.expression,
                        first.result,
                    )
                },
                (
                    InfixProgress::Applied { index, applied, element },
                    ApplicationAnswer::Application(Some(second)),
                ) => {
                    &&& *final(state) == *old(state)
                    &&& after == (InfixProgress::Second { index, applied, element, second })
                },
                (
                    InfixProgress::Second { index, applied, second, .. },
                    ApplicationAnswer::Expression(element),
                ) => exists|middle: CheckState, infix: ElaboratedExpression|
                    {
                        &&& #[trigger] grown_by(
                            *old(state),
                            middle,
                            evidence_nodes(second.implicit@) + 1,
                        )
                        &&& infix.type_id == second.result
                        &&& applied_to(
                            middle.checked.tree@,
                            applied.expression,
                            second.implicit@,
                            element.expression,
                            infix.expression,
                            second.result,
                        )
                        &&& #[trigger] infix_continued(
                            middle,
                            *final(state),
                            final(types)@,
                            tail@,
                            infix,
                            (index + 1) as nat,
                            after,
                        )
                    },
                _ => after matches InfixProgress::Done { expression } && error_allocated(
                    *old(state),
                    *final(state),
                    expression,
                ) && final(types)@.is_unknown(
                    expression.type_id,
                    "invalid function application"@,
                ),
            },
    {
        match (self, answer) {
            (InfixProgress::Head, ApplicationAnswer::Expression(infix)) => {
                continue_infix(state, types, tail, infix, 0)
            },
            (
                InfixProgress::Begun { infix, index, element, .. },
                ApplicationAnswer::Expression(tick),
            ) => InfixProgress::Ticked { infix, index, tick, element },
            (
                InfixProgress::Ticked { infix, index, tick, element },
                ApplicationAnswer::Application(Some(first)),
            ) => InfixProgress::First { infix, index, tick, element, first },
            (
                InfixProgress::First { index, tick, element, first, .. },
                ApplicationAnswer::Expression(infix),
            ) => {
                let applied = materialize_application(
                    state,
                    tick,
                    &first.implicit,
                    first.result,
                    infix,
                );
                InfixProgress::Applied { index, applied, element }
            },
            (
                InfixProgress::Applied { index, applied, element },
                ApplicationAnswer::Application(Some(second)),
            ) => InfixProgress::Second { index, applied, element, second },
            (
                InfixProgress::Second { index, applied, second, .. },
                ApplicationAnswer::Expression(element),
            ) => {
                let infix = materialize_application(
                    state,
                    applied,
                    &second.implicit,
                    second.result,
                    element,
                );
                let ghost middle = *state;
                assert(index < tail.len());
                let after = continue_infix(state, types, tail, infix, index + 1);
                assert(grown_by(*old(state), middle, evidence_nodes(second.implicit@) + 1));
                assert(infix_continued(
                    middle,
                    *state,
                    types@,
                    tail@,
                    infix,
                    (index + 1) as nat,
                    after,
                ));
                after
            },
            _ => InfixProgress::Done { expression: invalid_application(state, types) },
        }
    }
}

} // verus!
