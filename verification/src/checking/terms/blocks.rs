//! `do` and `ado` blocks, step by step.
//!
//! A block tells what is asked next of the rest of the checker, and takes the answer.

use super::super::error::ErrorCrumb;
use super::super::lowering::{DoStatementId, SourceExpressionId, TermVariableResolution};
use super::super::state::CheckState;
use super::super::tree::{BinderId, LetBindings};
use super::super::types::{extends, lemma_extends_transitive, Prim, TypeId, TypeStore, Types};
use super::binary::{AdoAction, DoAction};
use super::form_ado::{
    action_types, ado_request, AdoPlan, AdoRequest, AdoStep, CheckedAdoApplication,
};
use super::form_do::{
    action_count, actions_before, bind_found, continuation_count, do_functions, do_request,
    lemma_actions_have_functions, lookup_or_synthesise_bind, lookup_or_synthesise_discard,
    needs_bind, needs_discard, request_store, requested, CheckedDoApplication, CheckedDoStep,
    DesugaredFunction, DoPlan, DoRequest, DoStep,
};
use vstd::prelude::*;

verus! {

// `do` blocks

/// The functions of a `do` block, as far as they are needed.
#[derive(Clone, Copy, Debug, PartialEq, Eq, Structural)]
pub struct DoFunctions {
    pub bind: Option<DesugaredFunction>,
    pub discard: Option<DesugaredFunction>,
}

/// A function of a block has been found, where it is needed.
pub open spec fn function_found(
    before: (CheckState, TypeStore),
    after: (CheckState, TypeStore),
    prim: Prim,
    resolved: Option<(TermVariableResolution, TypeId)>,
    needed: bool,
    function: Option<DesugaredFunction>,
) -> bool {
    if needed {
        function matches Some(function) && bind_found(before, after, prim, resolved, function)
    } else {
        function is None && after == before
    }
}

fn find_function(
    state: &mut CheckState,
    types: &mut Types,
    prim: &Prim,
    resolved: Option<(TermVariableResolution, TypeId)>,
    needed: bool,
    discard: bool,
) -> (function: Option<DesugaredFunction>)
    requires
        old(state).unifications.wf(),
        !old(state).unifications.is_frozen(),
        old(state).unifications@.len() + 3 <= u32::MAX,
        old(types)@.wf(),
    ensures
        final(types)@.wf(),
        extends(old(types)@, final(types)@),
        final(state).unifications.wf(),
        !final(state).unifications.is_frozen(),
        final(state).unifications@.len() <= old(state).unifications@.len() + 3,
        function_found(
            (*old(state), old(types)@),
            (*final(state), final(types)@),
            *prim,
            resolved,
            needed,
            function,
        ),
{
    if !needed {
        None
    } else if discard {
        Some(lookup_or_synthesise_discard(state, types, prim, resolved))
    } else {
        Some(lookup_or_synthesise_bind(state, types, prim, resolved))
    }
}

/// Finds the functions that the steps of a block need, `bind` first.
pub fn find_do_functions(
    state: &mut CheckState,
    types: &mut Types,
    prim: &Prim,
    steps: &Vec<DoStep>,
    bind: Option<(TermVariableResolution, TypeId)>,
    discard: Option<(TermVariableResolution, TypeId)>,
) -> (functions: DoFunctions)
    requires
        old(state).unifications.wf(),
        !old(state).unifications.is_frozen(),
        old(state).unifications@.len() + 6 <= u32::MAX,
        old(types)@.wf(),
    ensures
        final(types)@.wf(),
        extends(old(types)@, final(types)@),
        functions_found(
            (*old(state), old(types)@),
            (*final(state), final(types)@),
            *prim,
            (bind, discard),
            steps@,
            functions,
        ),
{
    let (binds, discards) = do_functions(steps);
    let found_bind = find_function(state, types, prim, bind, binds, false);
    let ghost middle = (*state, types@);
    let found_discard = find_function(state, types, prim, discard, discards, true);
    proof {
        lemma_extends_transitive(old(types)@, middle.1, types@);
        lemma_functions_found(
            (*old(state), old(types)@),
            middle,
            (*state, types@),
            *prim,
            (bind, discard),
            steps@,
            DoFunctions { bind: found_bind, discard: found_discard },
        );
    }
    DoFunctions { bind: found_bind, discard: found_discard }
}

/// The functions that the steps of a block need have been found, `bind` first.
pub open spec fn functions_found(
    before: (CheckState, TypeStore),
    after: (CheckState, TypeStore),
    prim: Prim,
    resolved: (
        Option<(TermVariableResolution, TypeId)>,
        Option<(TermVariableResolution, TypeId)>,
    ),
    steps: Seq<DoStep>,
    functions: DoFunctions,
) -> bool {
    exists|middle: (CheckState, TypeStore)|
        #![trigger function_found(before, middle, prim, resolved.0, needs_bind(steps), functions.bind)]
        function_found(before, middle, prim, resolved.0, needs_bind(steps), functions.bind)
            && function_found(
            middle,
            after,
            prim,
            resolved.1,
            needs_discard(steps),
            functions.discard,
        )
}

proof fn lemma_functions_found(
    before: (CheckState, TypeStore),
    middle: (CheckState, TypeStore),
    after: (CheckState, TypeStore),
    prim: Prim,
    resolved: (
        Option<(TermVariableResolution, TypeId)>,
        Option<(TermVariableResolution, TypeId)>,
    ),
    steps: Seq<DoStep>,
    functions: DoFunctions,
)
    requires
        function_found(before, middle, prim, resolved.0, needs_bind(steps), functions.bind),
        function_found(middle, after, prim, resolved.1, needs_discard(steps), functions.discard),
    ensures
        functions_found(before, after, prim, resolved, steps, functions),
{
}

/// There are no more actions than steps.
proof fn lemma_action_count(steps: Seq<DoStep>)
    ensures
        action_count(steps) <= steps.len(),
    decreases steps.len(),
{
    if steps.len() > 0 {
        lemma_action_count(steps.drop_last());
    }
}

/// A `do` block under way: its steps, how many of them have been looked at, how many
/// of those are actions, and what has been checked.
#[derive(Debug)]
pub struct DoBlock {
    pub steps: Vec<DoStep>,
    pub functions: DoFunctions,
    pub plan: DoPlan,
    pub index: usize,
    pub count: usize,
    pub checked: Vec<CheckedDoStep>,
}

/// What is to be done next with a `do` block.
#[allow(inconsistent_fields)]
#[derive(Clone, Copy, Debug, PartialEq, Eq, Structural)]
pub enum DoBlockStep {
    /// The bindings of the statement have to be checked.
    Let { crumb: ErrorCrumb, statement: DoStatementId },
    /// The function of the block has to be applied to the action.
    Action { crumb: ErrorCrumb, binder: BinderId, action: DoAction },
    /// There is nothing to ask for the step.
    Passed,
    /// The last expression has to be checked, where there is one.
    Final { expression: Option<SourceExpressionId>, expected: TypeId },
}

impl DoBlock {
    /// The actions are counted, there is a type for each of them, and the functions
    /// that they need have been found.
    pub open spec fn wf(self) -> bool {
        &&& self.index <= self.steps@.len()
        &&& self.count == actions_before(self.steps@, self.index as int)
        &&& self.plan.continuations@.len() == continuation_count(self.steps@)
        &&& self.plan.continuations@.len() > 0
        &&& needs_bind(self.steps@) ==> self.functions.bind is Some
        &&& needs_discard(self.steps@) ==> self.functions.discard is Some
    }

    pub fn begin(steps: Vec<DoStep>, functions: DoFunctions, plan: DoPlan) -> (block: DoBlock)
        requires
            plan.continuations@.len() == continuation_count(steps@),
            plan.continuations@.len() > 0,
            needs_bind(steps@) ==> functions.bind is Some,
            needs_discard(steps@) ==> functions.discard is Some,
        ensures
            block.wf(),
            block.index == 0,
            block.checked@.len() == 0,
            block == (DoBlock {
                steps,
                functions,
                plan,
                index: 0,
                count: 0,
                checked: block.checked,
            }),
    {
        assert(steps@.take(0) =~= Seq::empty());
        DoBlock { steps, functions, plan, index: 0, count: 0, checked: Vec::new() }
    }

    /// What is to be done for the next step, once that has been asked for.
    pub open spec fn answers(self, request: DoRequest, step: DoBlockStep) -> bool {
        match request {
            DoRequest::CheckLet { crumb } => step matches DoBlockStep::Let {
                crumb: place,
                statement,
            } && place == crumb && self.steps@[self.index as int] == (DoStep::Let { statement }),
            DoRequest::Bind { crumb, expression, binder, now, next } => step == (
            DoBlockStep::Action {
                crumb,
                binder: binder.binder,
                action: DoAction {
                    function: self.functions.bind->0,
                    expression,
                    binder_type: binder.type_id,
                    now,
                    next,
                },
            }),
            DoRequest::Discard { crumb, expression, binder, now, next } => step == (
            DoBlockStep::Action {
                crumb,
                binder: binder.binder,
                action: DoAction {
                    function: self.functions.discard->0,
                    expression,
                    binder_type: binder.type_id,
                    now,
                    next,
                },
            }),
            DoRequest::Checked(_) => step is Passed,
            DoRequest::Final => step is Passed,
        }
    }

    /// What is to be done next. What can be told of a step without asking is kept.
    pub fn step(&mut self, state: &mut CheckState, types: &mut Types, prim: &Prim) -> (step:
        DoBlockStep)
        requires
            old(self).wf(),
            old(state).unifications.wf(),
            !old(state).unifications.is_frozen(),
            old(state).unifications@.len() < u32::MAX,
            old(state).checked.tree@.binders.len() <= u32::MAX,
            old(types)@.wf(),
        ensures
            final(self).wf(),
            final(types)@.wf(),
            extends(old(types)@, final(types)@),
            *final(self) == (DoBlock {
                index: final(self).index,
                count: final(self).count,
                checked: final(self).checked,
                ..*old(self)
            }),
            if old(self).index == old(self).steps@.len() {
                &&& step == (DoBlockStep::Final {
                    expression: old(self).plan.final_expression,
                    expected: old(self).plan.continuations@.last(),
                })
                &&& *final(self) == *old(self)
                &&& *final(state) == *old(state)
                &&& final(types)@ == old(types)@
            } else {
                let own = old(self).steps@[old(self).index as int];
                &&& final(self).index == old(self).index + 1
                &&& final(types)@ == request_store(
                    old(types)@,
                    own,
                    old(self).count as nat,
                    old(self).plan.continuations@,
                    old(state).unifications@.len(),
                )
                &&& exists|request: DoRequest|
                    {
                        &&& #[trigger] requested(
                            *old(state),
                            *final(state),
                            final(types)@,
                            *prim,
                            own,
                            old(self).count as nat,
                            old(self).plan.continuations@,
                            request,
                        )
                        &&& old(self).answers(request, step)
                        &&& final(self).checked@ == (match request {
                            DoRequest::Checked(checked) => old(self).checked@.push(checked),
                            _ => old(self).checked@,
                        })
                    }
            },
    {
        if self.index == self.steps.len() {
            let last = self.plan.continuations[self.plan.continuations.len() - 1];
            return DoBlockStep::Final { expression: self.plan.final_expression, expected: last };
        }
        let own = self.steps[self.index];
        let ghost before = *self;
        proof {
            let steps = self.steps@;
            let index = self.index as int;
            assert(steps.take(index + 1).drop_last() =~= steps.take(index));
            lemma_action_count(steps.take(index));
            if own.action() {
                lemma_actions_have_functions(steps, index);
            }
        }
        let request = do_request(state, types, prim, own, self.count, &self.plan.continuations);
        self.index += 1;
        if own.is_action() {
            assert(self.count < self.index);
            self.count += 1;
        }
        match request {
            DoRequest::CheckLet { crumb } => {
                match own {
                    DoStep::Let { statement } => DoBlockStep::Let { crumb, statement },
                    _ => DoBlockStep::Passed,
                }
            },
            DoRequest::Bind { crumb, expression, binder, now, next } => {
                match self.functions.bind {
                    Some(function) => DoBlockStep::Action {
                        crumb,
                        binder: binder.binder,
                        action: DoAction {
                            function,
                            expression,
                            binder_type: binder.type_id,
                            now,
                            next,
                        },
                    },
                    None => DoBlockStep::Passed,
                }
            },
            DoRequest::Discard { crumb, expression, binder, now, next } => {
                match self.functions.discard {
                    Some(function) => DoBlockStep::Action {
                        crumb,
                        binder: binder.binder,
                        action: DoAction {
                            function,
                            expression,
                            binder_type: binder.type_id,
                            now,
                            next,
                        },
                    },
                    None => DoBlockStep::Passed,
                }
            },
            DoRequest::Checked(checked) => {
                self.checked.push(checked);
                DoBlockStep::Passed
            },
            DoRequest::Final => DoBlockStep::Passed,
        }
    }

    /// The bindings of a statement have been checked.
    pub fn push_let(&mut self, bindings: LetBindings)
        ensures
            *final(self) == (DoBlock { checked: final(self).checked, ..*old(self) }),
            final(self).checked@ == old(self).checked@.push(CheckedDoStep::Let { bindings }),
            old(self).wf() ==> final(self).wf(),
    {
        self.checked.push(CheckedDoStep::Let { bindings });
    }

    /// The function of the block has been applied to an action.
    pub fn push_application(&mut self, binder: BinderId, application: CheckedDoApplication)
        ensures
            *final(self) == (DoBlock { checked: final(self).checked, ..*old(self) }),
            final(self).checked@ == old(self).checked@.push(
                CheckedDoStep::Application { application, binder },
            ),
            old(self).wf() ==> final(self).wf(),
    {
        self.checked.push(CheckedDoStep::Application { application, binder });
    }
}

// `ado` blocks

/// An `ado` block under way: its steps, how many of them are done, and what has been
/// checked.
#[derive(Debug)]
pub struct AdoBlock {
    pub steps: Vec<AdoStep>,
    pub map: DesugaredFunction,
    pub apply: Option<DesugaredFunction>,
    pub plan: AdoPlan,
    pub index: usize,
    pub lets: Vec<LetBindings>,
    pub actions: Vec<CheckedAdoApplication>,
}

/// What is to be done next with an `ado` block.
#[allow(inconsistent_fields)]
#[derive(Clone, Copy, Debug, PartialEq, Eq, Structural)]
pub enum AdoBlockStep {
    /// The bindings of the statement have to be checked.
    Let { crumb: ErrorCrumb, statement: DoStatementId },
    /// The function of the block has to be applied to the action.
    Action { crumb: ErrorCrumb, action: AdoAction },
    /// The expression of the block has to be checked, where there is one.
    Final { expected: TypeId },
}

proof fn lemma_actions_grow(steps: Seq<AdoStep>, count: int)
    requires
        0 <= count <= steps.len(),
    ensures
        action_types(steps.take(count)).len() <= action_types(steps).len(),
    decreases steps.len() - count,
{
    if count < steps.len() {
        lemma_actions_grow(steps, count + 1);
        assert(steps.take(count + 1).drop_last() =~= steps.take(count));
    } else {
        assert(steps.take(count) =~= steps);
    }
}

impl AdoBlock {
    /// The actions that are done are those before the index, and `apply` has been found
    /// where it is needed.
    pub open spec fn wf(self) -> bool {
        &&& self.index <= self.steps@.len()
        &&& self.actions@.len() == action_types(self.steps@.take(self.index as int)).len()
        &&& action_types(self.steps@).len() > 1 ==> self.apply is Some
    }

    pub fn begin(
        steps: Vec<AdoStep>,
        map: DesugaredFunction,
        apply: Option<DesugaredFunction>,
        plan: AdoPlan,
    ) -> (block: AdoBlock)
        requires
            action_types(steps@).len() > 1 ==> apply is Some,
        ensures
            block.wf(),
            block.lets@.len() == 0,
            block.actions@.len() == 0,
            block == (AdoBlock {
                steps,
                map,
                apply,
                plan,
                index: 0,
                lets: block.lets,
                actions: block.actions,
            }),
    {
        assert(steps@.take(0) =~= Seq::empty());
        AdoBlock {
            steps,
            map,
            apply,
            plan,
            index: 0,
            lets: Vec::new(),
            actions: Vec::new(),
        }
    }

    /// What is to be done next: the first action is mapped over, and the others are
    /// applied to what the actions before them yield.
    pub open spec fn next(self) -> AdoBlockStep {
        if self.index == self.steps@.len() {
            AdoBlockStep::Final { expected: self.plan.in_expression_type }
        } else {
            match self.steps@[self.index as int] {
                AdoStep::Let { statement } => AdoBlockStep::Let {
                    crumb: ErrorCrumb::CheckingAdoLet(statement),
                    statement,
                },
                AdoStep::Action { statement, expression, .. } => if self.actions@.len() == 0 {
                    AdoBlockStep::Action {
                        crumb: ErrorCrumb::InferringAdoMap(statement),
                        action: AdoAction {
                            function: self.map,
                            expression,
                            first_argument: self.plan.lambda_type,
                        },
                    }
                } else {
                    AdoBlockStep::Action {
                        crumb: ErrorCrumb::InferringAdoApply(statement),
                        action: AdoAction {
                            function: self.apply->0,
                            expression,
                            first_argument: self.actions@.last().yields(),
                        },
                    }
                },
            }
        }
    }

    pub fn step(&self) -> (step: AdoBlockStep)
        requires
            self.wf(),
        ensures
            step == self.next(),
    {
        if self.index == self.steps.len() {
            return AdoBlockStep::Final { expected: self.plan.in_expression_type };
        }
        let own = self.steps[self.index];
        proof {
            let index = self.index as int;
            lemma_actions_grow(self.steps@, index + 1);
            assert(self.steps@.take(index + 1).drop_last() =~= self.steps@.take(index));
        }
        let reached = if self.actions.len() == 0 {
            None
        } else {
            Some(self.actions[self.actions.len() - 1].type_id())
        };
        match (own, ado_request(own, self.plan.lambda_type, reached)) {
            (AdoStep::Let { statement }, AdoRequest::CheckLet { crumb }) => AdoBlockStep::Let {
                crumb,
                statement,
            },
            (_, AdoRequest::MapAction { crumb, expression, first_argument }) => {
                let action = AdoAction { function: self.map, expression, first_argument };
                AdoBlockStep::Action { crumb, action }
            },
            (_, AdoRequest::ApplyAction { crumb, expression, first_argument }) => {
                let function = match self.apply {
                    Some(apply) => apply,
                    None => self.map,
                };
                let action = AdoAction { function, expression, first_argument };
                AdoBlockStep::Action { crumb, action }
            },
            (_, AdoRequest::CheckLet { .. }) => AdoBlockStep::Final {
                expected: self.plan.in_expression_type,
            },
        }
    }

    /// The bindings of the next statement have been checked.
    pub fn push_let(&mut self, bindings: LetBindings)
        requires
            old(self).wf(),
            old(self).next() is Let,
        ensures
            final(self).wf(),
            *final(self) == (AdoBlock {
                index: (old(self).index + 1) as usize,
                lets: final(self).lets,
                ..*old(self)
            }),
            final(self).lets@ == old(self).lets@.push(bindings),
    {
        proof {
            let index = self.index as int;
            assert(self.steps@.take(index + 1).drop_last() =~= self.steps@.take(index));
        }
        assert(self.index < self.steps.len());
        self.lets.push(bindings);
        self.index += 1;
    }

    /// The function of the block has been applied to the next action.
    pub fn push_action(&mut self, application: CheckedAdoApplication)
        requires
            old(self).wf(),
            old(self).next() is Action,
        ensures
            final(self).wf(),
            *final(self) == (AdoBlock {
                index: (old(self).index + 1) as usize,
                actions: final(self).actions,
                ..*old(self)
            }),
            final(self).actions@ == old(self).actions@.push(application),
    {
        proof {
            let index = self.index as int;
            assert(self.steps@.take(index + 1).drop_last() =~= self.steps@.take(index));
        }
        assert(self.index < self.steps.len());
        self.actions.push(application);
        self.index += 1;
    }
}

/// Once all steps are done, every action of the block has been applied, in order.
pub proof fn lemma_all_actions_applied(block: AdoBlock)
    requires
        block.wf(),
        block.next() is Final,
    ensures
        block.actions@.len() == action_types(block.steps@).len(),
{
    assert(block.steps@.take(block.index as int) =~= block.steps@);
}

} // verus!
