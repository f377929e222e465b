//! Plans for derived expressions.
//!
//! A plan is a list of steps, each of which makes a binder, a pattern or an
//! expression out of those that earlier steps have made. Whether an expression can
//! be applied is only known once the steps are taken.

use super::super::types::{FileId, TypeId};
use super::field::FieldType;
use super::shapes::{self, shape, Shape};
use crate::indexing::items::TermItemId;
use vstd::prelude::*;

verus! {

/// What a step of a plan has made.
#[derive(Clone, Copy, Debug, PartialEq, Eq, Structural)]
pub struct PlanId {
    pub raw: usize,
}

/// The type of an expression: a function from the arguments to the result, within
/// the effect if there is one.
#[derive(Debug)]
pub struct PlanType {
    pub arguments: Vec<TypeId>,
    pub effect: Option<TypeId>,
    pub result: TypeId,
}

/// The model of [`PlanType`].
pub struct PlannedType {
    pub arguments: Seq<TypeId>,
    pub effect: Option<TypeId>,
    pub result: TypeId,
}

impl View for PlanType {
    type V = PlannedType;

    open spec fn view(&self) -> PlannedType {
        PlannedType { arguments: self.arguments@, effect: self.effect, result: self.result }
    }
}

/// The type without arguments or an effect.
pub open spec fn plain_type(type_id: TypeId) -> PlannedType {
    PlannedType { arguments: Seq::empty(), effect: None, result: type_id }
}

/// The type within an effect.
pub open spec fn effect_type(effect: TypeId, type_id: TypeId) -> PlannedType {
    PlannedType { arguments: Seq::empty(), effect: Some(effect), result: type_id }
}

/// The function type from one type to another.
pub open spec fn arrow_type(argument: TypeId, result: TypeId) -> PlannedType {
    PlannedType { arguments: seq![argument], effect: None, result }
}

impl PlanType {
    pub fn plain(type_id: TypeId) -> (planned: PlanType)
        ensures
            planned@ == plain_type(type_id),
    {
        let planned = PlanType { arguments: Vec::new(), effect: None, result: type_id };
        assert(planned@.arguments =~= Seq::empty());
        planned
    }

    pub fn within(effect: TypeId, type_id: TypeId) -> (planned: PlanType)
        ensures
            planned@ == effect_type(effect, type_id),
    {
        let planned = PlanType { arguments: Vec::new(), effect: Some(effect), result: type_id };
        assert(planned@.arguments =~= Seq::empty());
        planned
    }

    pub fn arrow(argument: TypeId, result: TypeId) -> (planned: PlanType)
        ensures
            planned@ == arrow_type(argument, result),
    {
        let mut arguments: Vec<TypeId> = Vec::new();
        arguments.push(argument);
        let planned = PlanType { arguments, effect: None, result };
        assert(planned@.arguments =~= seq![argument]);
        planned
    }
}

/// A step of a plan.
#[allow(inconsistent_fields)]
#[derive(Debug)]
pub enum Instruction {
    /// A binder of a variable.
    Binder { name: String, type_id: TypeId },
    /// The variable of a binder.
    Variable { binder: PlanId },
    /// A term of a module.
    Reference { resolution: (FileId, TermItemId) },
    /// A function applied to an argument, with the evidence that it needs. The plan
    /// fails where it is no function.
    Apply { function: PlanId, argument: PlanId },
    /// An expression as one of another type, with the evidence that it needs.
    Subtype { expression: PlanId, planned: PlanType },
    Lambda { planned: PlanType, binders: Vec<PlanId>, body: PlanId },
    RecordAccess { record: PlanId, label: String, type_id: TypeId },
    RecordUpdate { record: PlanId, updates: Vec<(String, PlanId)>, type_id: TypeId },
    ConstructorPattern {
        name: String,
        type_id: TypeId,
        resolution: (FileId, TermItemId),
        arguments: Vec<PlanId>,
    },
    WildcardPattern { name: String, type_id: TypeId },
    /// An alternative of a case expression.
    Alternative { pattern: PlanId, body: PlanId },
    Case { type_id: TypeId, scrutinee: PlanId, alternatives: Vec<PlanId> },
}

/// The model of [`Instruction`].
#[allow(inconsistent_fields)]
pub enum Step {
    Binder { name: Seq<char>, type_id: TypeId },
    Variable { binder: PlanId },
    Reference { resolution: (FileId, TermItemId) },
    Apply { function: PlanId, argument: PlanId },
    Subtype { expression: PlanId, planned: PlannedType },
    Lambda { planned: PlannedType, binders: Seq<PlanId>, body: PlanId },
    RecordAccess { record: PlanId, label: String, type_id: TypeId },
    RecordUpdate { record: PlanId, updates: Seq<(String, PlanId)>, type_id: TypeId },
    ConstructorPattern {
        name: Seq<char>,
        type_id: TypeId,
        resolution: (FileId, TermItemId),
        arguments: Seq<PlanId>,
    },
    WildcardPattern { name: Seq<char>, type_id: TypeId },
    Alternative { pattern: PlanId, body: PlanId },
    Case { type_id: TypeId, scrutinee: PlanId, alternatives: Seq<PlanId> },
}

impl View for Instruction {
    type V = Step;

    open spec fn view(&self) -> Step {
        match *self {
            Instruction::Binder { name, type_id } => Step::Binder { name: name@, type_id },
            Instruction::Variable { binder } => Step::Variable { binder },
            Instruction::Reference { resolution } => Step::Reference { resolution },
            Instruction::Apply { function, argument } => Step::Apply { function, argument },
            Instruction::Subtype { expression, planned } => Step::Subtype {
                expression,
                planned: planned@,
            },
            Instruction::Lambda { planned, binders, body } => Step::Lambda {
                planned: planned@,
                binders: binders@,
                body,
            },
            Instruction::RecordAccess { record, label, type_id } => Step::RecordAccess {
                record,
                label,
                type_id,
            },
            Instruction::RecordUpdate { record, updates, type_id } => Step::RecordUpdate {
                record,
                updates: updates@,
                type_id,
            },
            Instruction::ConstructorPattern { name, type_id, resolution, arguments } => {
                Step::ConstructorPattern {
                    name: name@,
                    type_id,
                    resolution,
                    arguments: arguments@,
                }
            },
            Instruction::WildcardPattern { name, type_id } => Step::WildcardPattern {
                name: name@,
                type_id,
            },
            Instruction::Alternative { pattern, body } => Step::Alternative { pattern, body },
            Instruction::Case { type_id, scrutinee, alternatives } => Step::Case {
                type_id,
                scrutinee,
                alternatives: alternatives@,
            },
        }
    }
}

/// What kind of thing a step makes.
pub enum Sort {
    Expression,
    /// A binder or a pattern.
    Binder,
    Alternative,
}

impl Step {
    pub open spec fn sort(self) -> Sort {
        match self {
            Step::Binder { .. } => Sort::Binder,
            Step::ConstructorPattern { .. } => Sort::Binder,
            Step::WildcardPattern { .. } => Sort::Binder,
            Step::Alternative { .. } => Sort::Alternative,
            _ => Sort::Expression,
        }
    }
}

/// A step of the plan makes a thing of the sort.
pub open spec fn makes(plan: Seq<Step>, id: PlanId, sort: Sort) -> bool {
    id.raw < plan.len() && plan[id.raw as int].sort() == sort
}

/// Steps of the plan make things of the sort.
pub open spec fn makes_all(plan: Seq<Step>, ids: Seq<PlanId>, sort: Sort) -> bool {
    forall|i: int| 0 <= i < ids.len() ==> makes(plan, #[trigger] ids[i], sort)
}

/// Steps of the plan make the expressions of the updates.
pub open spec fn makes_updates(plan: Seq<Step>, updates: Seq<(String, PlanId)>) -> bool {
    forall|i: int|
        0 <= i < updates.len() ==> makes(plan, (#[trigger] updates[i]).1, Sort::Expression)
}

/// The later plan begins with the steps of the earlier one.
pub open spec fn continues(before: Seq<Step>, after: Seq<Step>) -> bool {
    &&& before.len() <= after.len()
    &&& forall|i: int| 0 <= i < before.len() ==> #[trigger] after[i] == before[i]
}

/// A plan that continues another continues those that the other continues.
pub broadcast proof fn lemma_continues(first: Seq<Step>, second: Seq<Step>, third: Seq<Step>)
    requires
        #[trigger] continues(first, second),
        #[trigger] continues(second, third),
    ensures
        continues(first, third),
{
    assert forall|i: int| 0 <= i < first.len() implies #[trigger] third[i] == first[i] by {
        assert(second[i] == first[i]);
    }
}

/// What a plan makes, a plan that continues it makes.
pub broadcast proof fn lemma_makes(before: Seq<Step>, after: Seq<Step>, id: PlanId, sort: Sort)
    requires
        #[trigger] continues(before, after),
        #[trigger] makes(before, id, sort),
    ensures
        makes(after, id, sort),
{
    assert(after[id.raw as int] == before[id.raw as int]);
}

/// What a plan makes, a plan that continues it makes.
pub broadcast proof fn lemma_makes_all(
    before: Seq<Step>,
    after: Seq<Step>,
    ids: Seq<PlanId>,
    sort: Sort,
)
    requires
        #[trigger] continues(before, after),
        #[trigger] makes_all(before, ids, sort),
    ensures
        makes_all(after, ids, sort),
{
    assert forall|i: int| 0 <= i < ids.len() implies makes(after, #[trigger] ids[i], sort) by {
        lemma_makes(before, after, ids[i], sort);
    }
}

/// The updates that a plan makes, a plan that continues it makes.
pub broadcast proof fn lemma_makes_updates(
    before: Seq<Step>,
    after: Seq<Step>,
    updates: Seq<(String, PlanId)>,
)
    requires
        #[trigger] continues(before, after),
        #[trigger] makes_updates(before, updates),
    ensures
        makes_updates(after, updates),
{
    assert forall|i: int| 0 <= i < updates.len() implies makes(
        after,
        (#[trigger] updates[i]).1,
        Sort::Expression,
    ) by {
        lemma_makes(before, after, updates[i].1, Sort::Expression);
    }
}

/// What has been made stays made.
pub broadcast group group_continues {
    lemma_continues,
    lemma_makes,
    lemma_makes_all,
    lemma_makes_updates,
}

impl Step {
    /// The step uses only what the steps of the plan make.
    pub open spec fn fits(self, plan: Seq<Step>) -> bool {
        match self {
            Step::Binder { .. } => true,
            Step::Variable { binder } => makes(plan, binder, Sort::Binder),
            Step::Reference { .. } => true,
            Step::Apply { function, argument } => makes(plan, function, Sort::Expression)
                && makes(plan, argument, Sort::Expression),
            Step::Subtype { expression, .. } => makes(plan, expression, Sort::Expression),
            Step::Lambda { binders, body, .. } => makes_all(plan, binders, Sort::Binder) && makes(
                plan,
                body,
                Sort::Expression,
            ),
            Step::RecordAccess { record, .. } => makes(plan, record, Sort::Expression),
            Step::RecordUpdate { record, updates, .. } => makes(plan, record, Sort::Expression)
                && makes_updates(plan, updates),
            Step::ConstructorPattern { arguments, .. } => makes_all(plan, arguments, Sort::Binder),
            Step::WildcardPattern { .. } => true,
            Step::Alternative { pattern, body } => makes(plan, pattern, Sort::Binder) && makes(
                plan,
                body,
                Sort::Expression,
            ),
            Step::Case { scrutinee, alternatives, .. } => makes(plan, scrutinee, Sort::Expression)
                && makes_all(plan, alternatives, Sort::Alternative),
        }
    }
}

/// Every step uses only what steps before it make, so that the steps can be taken in
/// order.
pub open spec fn in_order(plan: Seq<Step>) -> bool {
    forall|i: int| 0 <= i < plan.len() ==> (#[trigger] plan[i]).fits(plan.take(i))
}

/// What the next step makes.
pub open spec fn next(plan: Seq<Step>) -> PlanId {
    PlanId { raw: plan.len() as usize }
}

/// A plan whose steps make an expression, a pattern or a binder.
pub struct Emission {
    pub plan: Seq<Step>,
    pub id: PlanId,
}

/// The plan with one more step.
pub open spec fn stepped(plan: Seq<Step>, step: Step) -> Emission {
    Emission { plan: plan.push(step), id: next(plan) }
}

impl Emission {
    /// The expression that was made, applied to an argument.
    pub open spec fn applied(self, argument: PlanId) -> Emission {
        stepped(self.plan, Step::Apply { function: self.id, argument })
    }

    /// The expression that was made, as one of another type.
    pub open spec fn as_type(self, planned: PlannedType) -> Emission {
        stepped(self.plan, Step::Subtype { expression: self.id, planned })
    }
}

/// The later plan and the expression that it makes are those expected; where nothing
/// is expected, nothing was made.
pub open spec fn emitted(
    before: Seq<Step>,
    after: Seq<Step>,
    expected: Option<Emission>,
    id: Option<PlanId>,
) -> bool {
    emitted_as(before, after, expected, id, Sort::Expression)
}

/// The later plan and what it makes are those expected.
pub open spec fn emitted_as(
    before: Seq<Step>,
    after: Seq<Step>,
    expected: Option<Emission>,
    id: Option<PlanId>,
    sort: Sort,
) -> bool {
    match expected {
        Some(emission) => {
            &&& id == Some(emission.id)
            &&& after == emission.plan
            &&& in_order(after)
            &&& continues(before, after)
            &&& makes(after, emission.id, sort)
        },
        None => id is None,
    }
}

/// Terms of the standard library that derived expressions are made of, as far as
/// they are known.
#[derive(Clone, Copy, Debug)]
pub struct KnownTerms {
    pub map: Option<(FileId, TermItemId)>,
    pub apply: Option<(FileId, TermItemId)>,
    pub pure: Option<(FileId, TermItemId)>,
    pub cmap: Option<(FileId, TermItemId)>,
    pub bimap: Option<(FileId, TermItemId)>,
    pub dimap: Option<(FileId, TermItemId)>,
    pub foldr: Option<(FileId, TermItemId)>,
    pub foldl: Option<(FileId, TermItemId)>,
    pub fold_map: Option<(FileId, TermItemId)>,
    pub bifoldr: Option<(FileId, TermItemId)>,
    pub bifoldl: Option<(FileId, TermItemId)>,
    pub bifold_map: Option<(FileId, TermItemId)>,
    pub append: Option<(FileId, TermItemId)>,
    pub mempty: Option<(FileId, TermItemId)>,
    pub traverse: Option<(FileId, TermItemId)>,
    pub sequence: Option<(FileId, TermItemId)>,
    pub bitraverse: Option<(FileId, TermItemId)>,
    pub bisequence: Option<(FileId, TermItemId)>,
    pub eq: Option<(FileId, TermItemId)>,
    pub compare: Option<(FileId, TermItemId)>,
}

/// A plan under construction.
#[derive(Debug)]
pub struct Plan {
    instructions: Vec<Instruction>,
}

impl View for Plan {
    type V = Seq<Step>;

    closed spec fn view(&self) -> Seq<Step> {
        Seq::new(self.instructions@.len(), |i: int| self.instructions@[i]@)
    }
}

impl Plan {
    pub fn new() -> (plan: Plan)
        ensures
            plan@ == Seq::<Step>::empty(),
    {
        let plan = Plan { instructions: Vec::new() };
        assert(plan@ =~= Seq::<Step>::empty());
        plan
    }

    /// The steps, in order.
    pub fn instructions(&self) -> (instructions: &Vec<Instruction>)
        ensures
            instructions@.len() == self@.len(),
            forall|i: int| 0 <= i < instructions@.len() ==> (#[trigger] instructions@[i])@
                == self@[i],
    {
        &self.instructions
    }

    /// The number of steps.
    pub fn len(&self) -> (len: usize)
        ensures
            len == self@.len(),
    {
        self.instructions.len()
    }

    /// Adds a step.
    pub fn push(&mut self, instruction: Instruction) -> (id: PlanId)
        requires
            in_order(old(self)@),
            instruction@.fits(old(self)@),
        ensures
            (Emission { plan: final(self)@, id }) == stepped(old(self)@, instruction@),
            in_order(final(self)@),
            continues(old(self)@, final(self)@),
            makes(final(self)@, id, instruction@.sort()),
            id.raw == old(self)@.len(),
            final(self)@ == old(self)@.push(instruction@),
    {
        let id = PlanId { raw: self.instructions.len() };
        self.instructions.push(instruction);
        assert(self@ =~= old(self)@.push(instruction@));
        assert forall|i: int| 0 <= i < self@.len() implies (#[trigger] self@[i]).fits(
            self@.take(i),
        ) by {
            if i < old(self)@.len() {
                assert(self@[i] == old(self)@[i]);
                assert(self@.take(i) =~= old(self)@.take(i));
            } else {
                assert(self@.take(i) =~= old(self)@);
            }
        }
        id
    }

    pub fn variable_binder(&mut self, name: &str, type_id: TypeId) -> (id: PlanId)
        requires
            in_order(old(self)@),
        ensures
            (Emission { plan: final(self)@, id }) == stepped(
                old(self)@,
                Step::Binder { name: name@, type_id },
            ),
            in_order(final(self)@),
            continues(old(self)@, final(self)@),
            makes(final(self)@, id, Sort::Binder),
            id.raw == old(self)@.len(),
            shape(final(self)@, id) == (Shape::Bound { binder: id }),
    {
        self.push(Instruction::Binder { name: name.to_owned(), type_id })
    }

    pub fn variable(&mut self, binder: PlanId) -> (id: PlanId)
        requires
            in_order(old(self)@),
            makes(old(self)@, binder, Sort::Binder),
        ensures
            (Emission { plan: final(self)@, id }) == stepped(
                old(self)@,
                Step::Variable { binder },
            ),
            in_order(final(self)@),
            continues(old(self)@, final(self)@),
            makes(final(self)@, id, Sort::Expression),
            shape(final(self)@, id) == (Shape::Bound { binder }),
    {
        self.push(Instruction::Variable { binder })
    }

    pub fn term_reference(&mut self, resolution: (FileId, TermItemId)) -> (id: PlanId)
        requires
            in_order(old(self)@),
        ensures
            (Emission { plan: final(self)@, id }) == stepped(
                old(self)@,
                Step::Reference { resolution },
            ),
            in_order(final(self)@),
            continues(old(self)@, final(self)@),
            makes(final(self)@, id, Sort::Expression),
            shape(final(self)@, id) == (Shape::Term { resolution }),
    {
        self.push(Instruction::Reference { resolution })
    }

    pub fn apply(&mut self, function: PlanId, argument: PlanId) -> (id: PlanId)
        requires
            in_order(old(self)@),
            makes(old(self)@, function, Sort::Expression),
            makes(old(self)@, argument, Sort::Expression),
        ensures
            (Emission { plan: final(self)@, id }) == (Emission {
                plan: old(self)@,
                id: function,
            }).applied(argument),
            in_order(final(self)@),
            continues(old(self)@, final(self)@),
            makes(final(self)@, id, Sort::Expression),
            shape(final(self)@, id) == shapes::apply(
                shape(old(self)@, function),
                shape(old(self)@, argument),
            ),
    {
        let count: usize = self.len();
        assert(count == self@.len());
        proof {
            shapes::lemma_applied(Emission { plan: self@, id: function }, argument);
        }
        self.push(Instruction::Apply { function, argument })
    }

    pub fn subtype(&mut self, expression: PlanId, planned: PlanType) -> (id: PlanId)
        requires
            in_order(old(self)@),
            makes(old(self)@, expression, Sort::Expression),
        ensures
            (Emission { plan: final(self)@, id }) == (Emission {
                plan: old(self)@,
                id: expression,
            }).as_type(planned@),
            in_order(final(self)@),
            continues(old(self)@, final(self)@),
            makes(final(self)@, id, Sort::Expression),
            shape(final(self)@, id) == shape(old(self)@, expression),
    {
        let count: usize = self.len();
        assert(count == self@.len());
        proof {
            shapes::lemma_as_type(Emission { plan: self@, id: expression }, planned@);
        }
        self.push(Instruction::Subtype { expression, planned })
    }

    pub fn lambda(&mut self, planned: PlanType, binders: Vec<PlanId>, body: PlanId) -> (id: PlanId)
        requires
            in_order(old(self)@),
            makes_all(old(self)@, binders@, Sort::Binder),
            makes(old(self)@, body, Sort::Expression),
        ensures
            (Emission { plan: final(self)@, id }) == stepped(
                old(self)@,
                Step::Lambda { planned: planned@, binders: binders@, body },
            ),
            in_order(final(self)@),
            continues(old(self)@, final(self)@),
            makes(final(self)@, id, Sort::Expression),
            shape(final(self)@, id) == shapes::function_of(
                shapes::shapes(old(self)@, binders@),
                shape(old(self)@, body),
            ),
    {
        let count: usize = self.len();
        assert(count == self@.len());
        proof {
            shapes::lemma_made_within(self@, binders@, Sort::Binder);
            shapes::lemma_function(self@, planned@, binders@, body);
        }
        self.push(Instruction::Lambda { planned, binders, body })
    }

    /// A function of one variable.
    pub fn unary_lambda(&mut self, planned: PlanType, binder: PlanId, body: PlanId) -> (id: PlanId)
        requires
            in_order(old(self)@),
            makes(old(self)@, binder, Sort::Binder),
            makes(old(self)@, body, Sort::Expression),
        ensures
            (Emission { plan: final(self)@, id }) == stepped(
                old(self)@,
                Step::Lambda { planned: planned@, binders: seq![binder], body },
            ),
            in_order(final(self)@),
            continues(old(self)@, final(self)@),
            makes(final(self)@, id, Sort::Expression),
            shape(final(self)@, id) == shapes::function_of(
                seq![shape(old(self)@, binder)],
                shape(old(self)@, body),
            ),
    {
        let mut binders: Vec<PlanId> = Vec::new();
        binders.push(binder);
        assert(binders@ =~= seq![binder]);
        assert(shapes::shapes(self@, binders@) =~= seq![shape(self@, binder)]);
        self.lambda(planned, binders, body)
    }

    pub fn record_access(&mut self, record: PlanId, label: &String, type_id: TypeId) -> (id: PlanId)
        requires
            in_order(old(self)@),
            makes(old(self)@, record, Sort::Expression),
        ensures
            (Emission { plan: final(self)@, id }) == stepped(
                old(self)@,
                Step::RecordAccess { record, label: *label, type_id },
            ),
            in_order(final(self)@),
            continues(old(self)@, final(self)@),
            makes(final(self)@, id, Sort::Expression),
            shape(final(self)@, id) == shapes::access_of(shape(old(self)@, record), *label),
    {
        proof {
            let step = Step::RecordAccess { record, label: *label, type_id };
            shapes::lemma_shape_continues(self@, self@.push(step), record);
        }
        self.push(Instruction::RecordAccess { record, label: label.clone(), type_id })
    }

    pub fn constructor_pattern(
        &mut self,
        name: &str,
        type_id: TypeId,
        resolution: (FileId, TermItemId),
        arguments: Vec<PlanId>,
    ) -> (id: PlanId)
        requires
            in_order(old(self)@),
            makes_all(old(self)@, arguments@, Sort::Binder),
        ensures
            (Emission { plan: final(self)@, id }) == stepped(
                old(self)@,
                Step::ConstructorPattern { name: name@, type_id, resolution, arguments: arguments@ },
            ),
            in_order(final(self)@),
            continues(old(self)@, final(self)@),
            makes(final(self)@, id, Sort::Binder),
            shape(final(self)@, id) == shapes::construct(
                resolution,
                shapes::shapes(old(self)@, arguments@),
            ),
    {
        let count: usize = self.len();
        assert(count == self@.len());
        proof {
            shapes::lemma_made_within(self@, arguments@, Sort::Binder);
            shapes::lemma_pattern(self@, name@, type_id, resolution, arguments@);
        }
        self.push(
            Instruction::ConstructorPattern { name: name.to_owned(), type_id, resolution, arguments },
        )
    }

    pub fn alternative(&mut self, pattern: PlanId, body: PlanId) -> (id: PlanId)
        requires
            in_order(old(self)@),
            makes(old(self)@, pattern, Sort::Binder),
            makes(old(self)@, body, Sort::Expression),
        ensures
            (Emission { plan: final(self)@, id }) == stepped(
                old(self)@,
                Step::Alternative { pattern, body },
            ),
            in_order(final(self)@),
            continues(old(self)@, final(self)@),
            makes(final(self)@, id, Sort::Alternative),
            shapes::alternative(final(self)@, id) == Some((pattern, body)),
    {
        self.push(Instruction::Alternative { pattern, body })
    }

    pub fn case(&mut self, type_id: TypeId, scrutinee: PlanId, alternatives: Vec<PlanId>) -> (id:
        PlanId)
        requires
            in_order(old(self)@),
            makes(old(self)@, scrutinee, Sort::Expression),
            makes_all(old(self)@, alternatives@, Sort::Alternative),
        ensures
            (Emission { plan: final(self)@, id }) == stepped(
                old(self)@,
                Step::Case { type_id, scrutinee, alternatives: alternatives@ },
            ),
            in_order(final(self)@),
            continues(old(self)@, final(self)@),
            makes(final(self)@, id, Sort::Expression),
            shape(final(self)@, id) == shapes::cases_by(
                shape(old(self)@, scrutinee),
                shapes::case_patterns(old(self)@, alternatives@),
                shapes::case_bodies(old(self)@, alternatives@),
            ),
    {
        let count: usize = self.len();
        assert(count == self@.len());
        proof {
            assert forall|i: int| 0 <= i < alternatives@.len() implies (shapes::alternative(
                self@,
                #[trigger] alternatives@[i],
            ) matches Some((pattern, body)) && shapes::is_alternative(
                self@,
                alternatives@[i],
                pattern,
                body,
            )) by {
                let raw = alternatives@[i].raw as int;
                assert(makes(self@, alternatives@[i], Sort::Alternative));
                assert(self@[raw].fits(self@.take(raw)));
            }
            shapes::lemma_cases(self@, type_id, scrutinee, alternatives@);
        }
        self.push(Instruction::Case { type_id, scrutinee, alternatives })
    }
}

/// An expression applied to the first arguments, one after the other.
pub open spec fn applied_all(function: Emission, arguments: Seq<PlanId>, count: nat) -> Emission
    decreases count,
{
    if count == 0 || count > arguments.len() {
        function
    } else {
        applied_all(function, arguments, (count - 1) as nat).applied(arguments[count - 1])
    }
}

/// Applies an expression to all arguments, one after the other.
pub fn apply_all(plan: &mut Plan, function: PlanId, arguments: &Vec<PlanId>) -> (applied: PlanId)
    requires
        in_order(old(plan)@),
        makes(old(plan)@, function, Sort::Expression),
        makes_all(old(plan)@, arguments@, Sort::Expression),
    ensures
        in_order(final(plan)@),
        continues(old(plan)@, final(plan)@),
        makes(final(plan)@, applied, Sort::Expression),
        (Emission { plan: final(plan)@, id: applied }) == applied_all(
            Emission { plan: old(plan)@, id: function },
            arguments@,
            arguments@.len(),
        ),
        shape(final(plan)@, applied) == shapes::apply_each(
            shape(old(plan)@, function),
            shapes::shapes(old(plan)@, arguments@),
        ),
{
    let ghost all = shapes::shapes(plan@, arguments@);
    assert(all.take(0) =~= Seq::empty());
    let mut applied = function;
    let mut index: usize = 0;
    while index < arguments.len()
        invariant
            index <= arguments.len(),
            in_order(plan@),
            continues(old(plan)@, plan@),
            makes(plan@, applied, Sort::Expression),
            makes_all(old(plan)@, arguments@, Sort::Expression),
            (Emission { plan: plan@, id: applied }) == applied_all(
                Emission { plan: old(plan)@, id: function },
                arguments@,
                index as nat,
            ),
            all == shapes::shapes(old(plan)@, arguments@),
            shape(plan@, applied) == shapes::apply_each(
                shape(old(plan)@, function),
                all.take(index as int),
            ),
        decreases arguments.len() - index,
    {
        proof {
            assert(makes(old(plan)@, arguments@[index as int], Sort::Expression));
            shapes::lemma_shape_continues(old(plan)@, plan@, arguments@[index as int]);
            assert(all.take(index + 1).drop_last() =~= all.take(index as int));
            assert(all[index as int] == shape(old(plan)@, arguments@[index as int]));
        }
        applied = plan.apply(applied, arguments[index]);
        index += 1;
    }
    assert(all.take(index as int) =~= all);
    applied
}

/// Binders for the fields of a constructor, with their variables.
pub struct FieldBinders {
    pub plan: Seq<Step>,
    pub binders: Seq<PlanId>,
    pub values: Seq<PlanId>,
}

/// Binders for the first fields of a constructor.
pub open spec fn field_binders(plan: Seq<Step>, sources: Seq<FieldType>, count: nat) -> FieldBinders
    decreases count,
{
    if count == 0 || count > sources.len() {
        FieldBinders { plan, binders: Seq::empty(), values: Seq::empty() }
    } else {
        let before = field_binders(plan, sources, (count - 1) as nat);
        let binder = stepped(
            before.plan,
            Step::Binder {
                name: numbered("field"@, (count - 1) as nat),
                type_id: sources[count - 1].identity(),
            },
        );
        let value = stepped(binder.plan, Step::Variable { binder: binder.id });
        FieldBinders {
            plan: value.plan,
            binders: before.binders.push(binder.id),
            values: before.values.push(value.id),
        }
    }
}

/// Makes binders for the fields of a constructor, each with its variable.
pub fn bind_fields(plan: &mut Plan, sources: &Vec<FieldType>) -> (bound: (Vec<PlanId>, Vec<PlanId>))
    requires
        in_order(old(plan)@),
    ensures
        in_order(final(plan)@),
        continues(old(plan)@, final(plan)@),
        makes_all(final(plan)@, bound.0@, Sort::Binder),
        makes_all(final(plan)@, bound.1@, Sort::Expression),
        bound.0@.len() == sources@.len(),
        bound.1@.len() == sources@.len(),
        (FieldBinders { plan: final(plan)@, binders: bound.0@, values: bound.1@ })
            == field_binders(old(plan)@, sources@, sources@.len()),
        shapes::shapes(final(plan)@, bound.0@) == shapes::bounds(bound.0@),
        shapes::shapes(final(plan)@, bound.1@) == shapes::bounds(bound.0@),
        bound.0@.no_duplicates(),
{
    let mut binders: Vec<PlanId> = Vec::new();
    let mut values: Vec<PlanId> = Vec::new();
    let mut index: usize = 0;
    assert(shapes::shapes(plan@, binders@) =~= shapes::bounds(binders@));
    while index < sources.len()
        invariant
            index <= sources.len(),
            in_order(plan@),
            continues(old(plan)@, plan@),
            makes_all(plan@, binders@, Sort::Binder),
            makes_all(plan@, values@, Sort::Expression),
            binders@.len() == index,
            values@.len() == index,
            (FieldBinders { plan: plan@, binders: binders@, values: values@ }) == field_binders(
                old(plan)@,
                sources@,
                index as nat,
            ),
            shapes::shapes(plan@, binders@) == shapes::bounds(binders@),
            shapes::shapes(plan@, values@) == shapes::bounds(binders@),
            binders@.no_duplicates(),
        decreases sources.len() - index,
    {
        let name = numbered_name("field", index);
        let ghost before = plan@;
        let ghost known = (binders@, values@);
        let binder = plan.variable_binder(name.as_str(), sources[index].id());
        let value = plan.variable(binder);
        binders.push(binder);
        values.push(value);
        proof {
            shapes::lemma_made_within(before, known.0, Sort::Binder);
            shapes::lemma_made_within(before, known.1, Sort::Expression);
            shapes::lemma_shapes_continue(before, plan@, known.0);
            shapes::lemma_shapes_continue(before, plan@, known.1);
            shapes::lemma_bounds_push(before, plan@, known.0, known.0, binder, binder);
            shapes::lemma_bounds_push(before, plan@, known.1, known.0, value, binder);
            assert forall|i: int| 0 <= i < known.0.len() implies known.0[i] != binder by {
                assert(known.0[i].raw < before.len());
            }
        }
        index += 1;
    }
    (binders, values)
}

// Names

/// A name with a number behind it.
pub open spec fn numbered(prefix: Seq<char>, number: nat) -> Seq<char> {
    prefix + crate::text::decimal(number)
}

/// A name with a number behind it.
pub fn numbered_name(prefix: &str, number: usize) -> (name: String)
    ensures
        name@ == numbered(prefix@, number as nat),
{
    let mut name = prefix.to_owned();
    crate::text::push_decimal(&mut name, number as u64);
    name
}

} // verus!
