//! What the steps of a plan make, read back as trees.

use super::super::types::FileId;
use super::plan::{
    continues, in_order, makes, makes_all, stepped, Emission, PlanId, PlannedType, Sort, Step,
};
use crate::indexing::items::TermItemId;
use vstd::prelude::*;

verus! {

/// An expression or a pattern without its types. A pattern reads as the expression that
/// it matches.
#[allow(inconsistent_fields)]
pub enum Shape {
    Term { resolution: (FileId, TermItemId) },
    /// The variable of a binder, or the binder itself.
    Bound { binder: PlanId },
    Applied { function: Box<Shape>, argument: Box<Shape> },
    Function { binders: Seq<Shape>, body: Box<Shape> },
    Access { record: Box<Shape>, label: String },
    Updated { record: Box<Shape>, labels: Seq<String>, values: Seq<Shape> },
    Cases { scrutinee: Box<Shape>, patterns: Seq<Shape>, bodies: Seq<Shape> },
    /// What matches everything.
    Anything,
    /// What no step makes.
    Nothing,
}

/// The function applied to the argument.
pub open spec fn apply(function: Shape, argument: Shape) -> Shape {
    Shape::Applied { function: Box::new(function), argument: Box::new(argument) }
}

/// The function applied to the arguments, one after the other.
pub open spec fn apply_each(function: Shape, arguments: Seq<Shape>) -> Shape
    decreases arguments.len(),
{
    if arguments.len() == 0 {
        function
    } else {
        apply(apply_each(function, arguments.drop_last()), arguments.last())
    }
}

/// The constructor applied to its arguments.
pub open spec fn construct(resolution: (FileId, TermItemId), arguments: Seq<Shape>) -> Shape {
    apply_each(Shape::Term { resolution }, arguments)
}

/// What a step makes.
pub open spec fn shape(plan: Seq<Step>, id: PlanId) -> Shape
    decreases 2 * id.raw + 1, 0nat,
{
    if id.raw >= plan.len() {
        Shape::Nothing
    } else {
        match plan[id.raw as int] {
            Step::Binder { .. } => Shape::Bound { binder: id },
            Step::Variable { binder } => Shape::Bound { binder },
            Step::Reference { resolution } => Shape::Term { resolution },
            Step::Apply { function, argument } => if function.raw < id.raw && argument.raw
                < id.raw {
                apply(shape(plan, function), shape(plan, argument))
            } else {
                Shape::Nothing
            },
            Step::Subtype { expression, .. } => if expression.raw < id.raw {
                shape(plan, expression)
            } else {
                Shape::Nothing
            },
            Step::Lambda { binders, body, .. } => if body.raw < id.raw {
                Shape::Function {
                    binders: shapes_below(plan, binders, id),
                    body: Box::new(shape(plan, body)),
                }
            } else {
                Shape::Nothing
            },
            Step::RecordAccess { record, label, .. } => if record.raw < id.raw {
                Shape::Access { record: Box::new(shape(plan, record)), label }
            } else {
                Shape::Nothing
            },
            Step::RecordUpdate { record, updates, .. } => if record.raw < id.raw {
                Shape::Updated {
                    record: Box::new(shape(plan, record)),
                    labels: update_labels(updates),
                    values: shapes_below(plan, update_values(updates), id),
                }
            } else {
                Shape::Nothing
            },
            Step::ConstructorPattern { resolution, arguments, .. } => construct(
                resolution,
                shapes_below(plan, arguments, id),
            ),
            Step::WildcardPattern { .. } => Shape::Anything,
            Step::Alternative { .. } => Shape::Nothing,
            Step::Case { scrutinee, alternatives, .. } => if scrutinee.raw < id.raw {
                Shape::Cases {
                    scrutinee: Box::new(shape(plan, scrutinee)),
                    patterns: shapes_below(plan, patterns_of(plan, alternatives, id), id),
                    bodies: shapes_below(plan, bodies_of(plan, alternatives, id), id),
                }
            } else {
                Shape::Nothing
            },
        }
    }
}

/// What several steps make, all of which come before another one.
pub open spec fn shapes_below(plan: Seq<Step>, ids: Seq<PlanId>, bound: PlanId) -> Seq<Shape>
    decreases 2 * bound.raw, ids.len(),
{
    if ids.len() == 0 {
        Seq::empty()
    } else {
        shapes_below(plan, ids.drop_last(), bound).push(
            if ids.last().raw < bound.raw {
                shape(plan, ids.last())
            } else {
                Shape::Nothing
            },
        )
    }
}

/// The labels of updates.
pub open spec fn update_labels(updates: Seq<(String, PlanId)>) -> Seq<String> {
    Seq::new(updates.len(), |i: int| updates[i].0)
}

/// The values of updates.
pub open spec fn update_values(updates: Seq<(String, PlanId)>) -> Seq<PlanId> {
    Seq::new(updates.len(), |i: int| updates[i].1)
}

/// The pattern and the body of an alternative.
pub open spec fn alternative(plan: Seq<Step>, id: PlanId) -> Option<(PlanId, PlanId)> {
    if id.raw < plan.len() {
        match plan[id.raw as int] {
            Step::Alternative { pattern, body } => Some((pattern, body)),
            _ => None,
        }
    } else {
        None
    }
}

/// The patterns of alternatives that come before a step.
pub open spec fn patterns_of(plan: Seq<Step>, alternatives: Seq<PlanId>, bound: PlanId) -> Seq<
    PlanId,
> {
    Seq::new(
        alternatives.len(),
        |i: int|
            if alternatives[i].raw < bound.raw && alternative(plan, alternatives[i]) is Some {
                (alternative(plan, alternatives[i])->0).0
            } else {
                bound
            },
    )
}

/// The bodies of alternatives that come before a step.
pub open spec fn bodies_of(plan: Seq<Step>, alternatives: Seq<PlanId>, bound: PlanId) -> Seq<
    PlanId,
> {
    Seq::new(
        alternatives.len(),
        |i: int|
            if alternatives[i].raw < bound.raw && alternative(plan, alternatives[i]) is Some {
                (alternative(plan, alternatives[i])->0).1
            } else {
                bound
            },
    )
}

/// The shapes of several steps.
pub open spec fn shapes(plan: Seq<Step>, ids: Seq<PlanId>) -> Seq<Shape> {
    Seq::new(ids.len(), |i: int| shape(plan, ids[i]))
}

/// All steps of the list are steps of the plan.
pub open spec fn within(plan: Seq<Step>, ids: Seq<PlanId>) -> bool {
    forall|i: int| 0 <= i < ids.len() ==> (#[trigger] ids[i]).raw < plan.len()
}

/// What a step makes stays what it is when steps are added.
pub proof fn lemma_shape_continues(before: Seq<Step>, after: Seq<Step>, id: PlanId)
    requires
        continues(before, after),
        id.raw < before.len(),
    ensures
        shape(after, id) == shape(before, id),
    decreases 2 * id.raw + 1, 0nat,
{
    assert(after[id.raw as int] == before[id.raw as int]);
    match before[id.raw as int] {
        Step::Apply { function, argument } => {
            if function.raw < id.raw && argument.raw < id.raw {
                lemma_shape_continues(before, after, function);
                lemma_shape_continues(before, after, argument);
            }
        },
        Step::Subtype { expression, .. } => {
            if expression.raw < id.raw {
                lemma_shape_continues(before, after, expression);
            }
        },
        Step::Lambda { binders, body, .. } => {
            if body.raw < id.raw {
                lemma_shape_continues(before, after, body);
                lemma_shapes_below_continue(before, after, binders, id);
            }
        },
        Step::RecordAccess { record, .. } => {
            if record.raw < id.raw {
                lemma_shape_continues(before, after, record);
            }
        },
        Step::RecordUpdate { record, updates, .. } => {
            if record.raw < id.raw {
                lemma_shape_continues(before, after, record);
                lemma_shapes_below_continue(before, after, update_values(updates), id);
            }
        },
        Step::ConstructorPattern { arguments, .. } => {
            lemma_shapes_below_continue(before, after, arguments, id);
        },
        Step::Case { scrutinee, alternatives, .. } => {
            if scrutinee.raw < id.raw {
                lemma_shape_continues(before, after, scrutinee);
                assert forall|i: int|
                    0 <= i < alternatives.len() && alternatives[i].raw < id.raw implies alternative(
                    after,
                    alternatives[i],
                ) == alternative(before, alternatives[i]) by {
                    let raw = alternatives[i].raw as int;
                    assert(after[raw] == before[raw]);
                }
                assert(patterns_of(after, alternatives, id) =~= patterns_of(
                    before,
                    alternatives,
                    id,
                ));
                assert(bodies_of(after, alternatives, id) =~= bodies_of(before, alternatives, id));
                lemma_shapes_below_continue(
                    before,
                    after,
                    patterns_of(before, alternatives, id),
                    id,
                );
                lemma_shapes_below_continue(before, after, bodies_of(before, alternatives, id), id);
            }
        },
        _ => {},
    }
}

proof fn lemma_shapes_below_continue(
    before: Seq<Step>,
    after: Seq<Step>,
    ids: Seq<PlanId>,
    bound: PlanId,
)
    requires
        continues(before, after),
        bound.raw < before.len(),
    ensures
        shapes_below(after, ids, bound) == shapes_below(before, ids, bound),
    decreases 2 * bound.raw, ids.len(),
{
    if ids.len() > 0 {
        lemma_shapes_below_continue(before, after, ids.drop_last(), bound);
        if ids.last().raw < bound.raw {
            lemma_shape_continues(before, after, ids.last());
        }
    }
}

/// Where all steps come before another one, what they make is what each of them makes.
pub proof fn lemma_shapes_below(plan: Seq<Step>, ids: Seq<PlanId>, bound: PlanId)
    requires
        forall|i: int| 0 <= i < ids.len() ==> (#[trigger] ids[i]).raw < bound.raw,
    ensures
        shapes_below(plan, ids, bound) == shapes(plan, ids),
    decreases ids.len(),
{
    if ids.len() > 0 {
        lemma_shapes_below(plan, ids.drop_last(), bound);
        assert(ids[ids.len() - 1].raw < bound.raw);
    }
    assert(shapes_below(plan, ids, bound) =~= shapes(plan, ids));
}

/// What a step makes stays what it is when steps are added.
pub broadcast proof fn lemma_shape_stays(before: Seq<Step>, after: Seq<Step>, id: PlanId)
    requires
        #[trigger] continues(before, after),
        id.raw < before.len(),
    ensures
        #[trigger] shape(after, id) == shape(before, id),
{
    lemma_shape_continues(before, after, id);
}

/// What several steps make stays what it is when steps are added.
pub broadcast proof fn lemma_shapes_stay(before: Seq<Step>, after: Seq<Step>, ids: Seq<PlanId>)
    requires
        #[trigger] continues(before, after),
        within(before, ids),
    ensures
        #[trigger] shapes(after, ids) == shapes(before, ids),
{
    lemma_shapes_continue(before, after, ids);
}

/// Steps that make things are steps of the plan.
pub broadcast proof fn lemma_made_within(plan: Seq<Step>, ids: Seq<PlanId>, sort: Sort)
    requires
        #[trigger] makes_all(plan, ids, sort),
    ensures
        within(plan, ids),
{
    assert forall|i: int| 0 <= i < ids.len() implies (#[trigger] ids[i]).raw < plan.len() by {
        assert(makes(plan, ids[i], sort));
    }
}

/// What has been made stays what it is.
pub broadcast group group_shapes {
    lemma_shape_stays,
    lemma_shapes_stay,
    lemma_made_within,
}

/// What several steps make stays what it is when steps are added.
pub proof fn lemma_shapes_continue(before: Seq<Step>, after: Seq<Step>, ids: Seq<PlanId>)
    requires
        continues(before, after),
        within(before, ids),
    ensures
        shapes(after, ids) == shapes(before, ids),
{
    assert forall|i: int| 0 <= i < ids.len() implies shape(after, ids[i]) == shape(
        before,
        ids[i],
    ) by {
        lemma_shape_continues(before, after, ids[i]);
    }
    assert(shapes(after, ids) =~= shapes(before, ids));
}

/// A plan with one more step continues the plan.
pub proof fn lemma_stepped(plan: Seq<Step>, step: Step)
    requires
        plan.len() <= usize::MAX,
    ensures
        continues(plan, stepped(plan, step).plan),
        stepped(plan, step).id.raw == plan.len(),
        stepped(plan, step).plan.len() == plan.len() + 1,
        stepped(plan, step).plan[plan.len() as int] == step,
{
}

/// A reference is the term.
pub proof fn lemma_reference(plan: Seq<Step>, resolution: (FileId, TermItemId))
    requires
        plan.len() <= usize::MAX,
    ensures
        ({
            let made = stepped(plan, Step::Reference { resolution });
            &&& shape(made.plan, made.id) == (Shape::Term { resolution })
            &&& continues(plan, made.plan)
            &&& made.plan.len() == plan.len() + 1
            &&& made.id.raw < made.plan.len()
        }),
{
    lemma_stepped(plan, Step::Reference { resolution });
}

/// An application applies what was made.
pub proof fn lemma_applied(function: Emission, argument: PlanId)
    requires
        function.plan.len() <= usize::MAX,
        function.id.raw < function.plan.len(),
        argument.raw < function.plan.len(),
    ensures
        ({
            let made = function.applied(argument);
            &&& shape(made.plan, made.id) == apply(
                shape(function.plan, function.id),
                shape(function.plan, argument),
            )
            &&& continues(function.plan, made.plan)
            &&& made.plan.len() == function.plan.len() + 1
            &&& made.id.raw < made.plan.len()
        }),
{
    let step = Step::Apply { function: function.id, argument };
    lemma_stepped(function.plan, step);
    let made = function.applied(argument);
    lemma_shape_continues(function.plan, made.plan, function.id);
    lemma_shape_continues(function.plan, made.plan, argument);
}

/// A change of type keeps what was made.
pub proof fn lemma_as_type(expression: Emission, planned: PlannedType)
    requires
        expression.plan.len() <= usize::MAX,
        expression.id.raw < expression.plan.len(),
    ensures
        ({
            let made = expression.as_type(planned);
            &&& shape(made.plan, made.id) == shape(expression.plan, expression.id)
            &&& continues(expression.plan, made.plan)
            &&& made.plan.len() == expression.plan.len() + 1
            &&& made.id.raw < made.plan.len()
        }),
{
    lemma_stepped(expression.plan, Step::Subtype { expression: expression.id, planned });
    let made = expression.as_type(planned);
    lemma_shape_continues(expression.plan, made.plan, expression.id);
}

/// A pattern of a constructor matches the constructor applied to what its arguments
/// match.
pub proof fn lemma_pattern(
    plan: Seq<Step>,
    name: Seq<char>,
    type_id: super::super::types::TypeId,
    resolution: (FileId, TermItemId),
    arguments: Seq<PlanId>,
)
    requires
        plan.len() <= usize::MAX,
        within(plan, arguments),
    ensures
        ({
            let made = stepped(
                plan,
                Step::ConstructorPattern { name, type_id, resolution, arguments },
            );
            &&& shape(made.plan, made.id) == construct(resolution, shapes(plan, arguments))
            &&& continues(plan, made.plan)
            &&& made.plan.len() == plan.len() + 1
            &&& made.id.raw < made.plan.len()
        }),
{
    let step = Step::ConstructorPattern { name, type_id, resolution, arguments };
    lemma_stepped(plan, step);
    let made = stepped(plan, step);
    lemma_shapes_continue(plan, made.plan, arguments);
    assert forall|i: int| 0 <= i < arguments.len() implies (#[trigger] arguments[i]).raw
        < made.id.raw by {}
    lemma_shapes_below(made.plan, arguments, made.id);
}

/// What alternatives are stays what it is when steps are added.
pub proof fn lemma_cases_continue(before: Seq<Step>, after: Seq<Step>, alternatives: Seq<PlanId>)
    requires
        continues(before, after),
        in_order(before),
        makes_all(before, alternatives, Sort::Alternative),
    ensures
        case_patterns(after, alternatives) == case_patterns(before, alternatives),
        case_bodies(after, alternatives) == case_bodies(before, alternatives),
{
    assert forall|i: int| 0 <= i < alternatives.len() implies {
        &&& #[trigger] case_patterns(after, alternatives)[i] == case_patterns(
            before,
            alternatives,
        )[i]
        &&& case_bodies(after, alternatives)[i] == case_bodies(before, alternatives)[i]
    } by {
        let raw = alternatives[i].raw as int;
        assert(makes(before, alternatives[i], Sort::Alternative));
        assert(before[raw].fits(before.take(raw)));
        assert(after[raw] == before[raw]);
        let (pattern, body) = alternative(before, alternatives[i])->0;
        lemma_shape_continues(before, after, pattern);
        lemma_shape_continues(before, after, body);
    }
    assert(case_patterns(after, alternatives) =~= case_patterns(before, alternatives));
    assert(case_bodies(after, alternatives) =~= case_bodies(before, alternatives)) by {
        assert forall|i: int| 0 <= i < alternatives.len() implies case_bodies(
            after,
            alternatives,
        )[i] == case_bodies(before, alternatives)[i] by {
            assert(case_patterns(after, alternatives)[i] == case_patterns(before, alternatives)[i]);
        }
    }
}

/// One more alternative.
pub proof fn lemma_cases_push(
    plan: Seq<Step>,
    alternatives: Seq<PlanId>,
    id: PlanId,
    pattern: PlanId,
    body: PlanId,
)
    requires
        alternative(plan, id) == Some((pattern, body)),
    ensures
        case_patterns(plan, alternatives.push(id)) == case_patterns(plan, alternatives).push(
            shape(plan, pattern),
        ),
        case_bodies(plan, alternatives.push(id)) == case_bodies(plan, alternatives).push(
            shape(plan, body),
        ),
{
    assert(case_patterns(plan, alternatives.push(id)) =~= case_patterns(plan, alternatives).push(
        shape(plan, pattern),
    ));
    assert(case_bodies(plan, alternatives.push(id)) =~= case_bodies(plan, alternatives).push(
        shape(plan, body),
    ));
}

/// A function of binders is one of what they bind.
pub proof fn lemma_function(
    plan: Seq<Step>,
    planned: PlannedType,
    binders: Seq<PlanId>,
    body: PlanId,
)
    requires
        plan.len() <= usize::MAX,
        within(plan, binders),
        body.raw < plan.len(),
    ensures
        ({
            let made = stepped(plan, Step::Lambda { planned, binders, body });
            shape(made.plan, made.id) == function_of(shapes(plan, binders), shape(plan, body))
        }),
{
    let step = Step::Lambda { planned, binders, body };
    lemma_stepped(plan, step);
    let made = stepped(plan, step);
    lemma_shapes_continue(plan, made.plan, binders);
    lemma_shape_continues(plan, made.plan, body);
    assert forall|i: int| 0 <= i < binders.len() implies (#[trigger] binders[i]).raw
        < made.id.raw by {}
    lemma_shapes_below(made.plan, binders, made.id);
}

/// A function of what is bound.
pub open spec fn function_of(binders: Seq<Shape>, body: Shape) -> Shape {
    Shape::Function { binders, body: Box::new(body) }
}

/// A field of a record.
pub open spec fn access_of(record: Shape, label: String) -> Shape {
    Shape::Access { record: Box::new(record), label }
}

/// A record with some fields updated.
pub open spec fn updated_of(record: Shape, labels: Seq<String>, values: Seq<Shape>) -> Shape {
    Shape::Updated { record: Box::new(record), labels, values }
}

/// An update of a record is one of its fields.
pub proof fn lemma_updated(
    plan: Seq<Step>,
    record: PlanId,
    updates: Seq<(String, PlanId)>,
    type_id: super::super::types::TypeId,
)
    requires
        plan.len() <= usize::MAX,
        record.raw < plan.len(),
        within(plan, update_values(updates)),
    ensures
        ({
            let made = stepped(plan, Step::RecordUpdate { record, updates, type_id });
            shape(made.plan, made.id) == updated_of(
                shape(plan, record),
                update_labels(updates),
                shapes(plan, update_values(updates)),
            )
        }),
{
    let step = Step::RecordUpdate { record, updates, type_id };
    lemma_stepped(plan, step);
    let made = stepped(plan, step);
    let values = update_values(updates);
    lemma_shapes_continue(plan, made.plan, values);
    lemma_shape_continues(plan, made.plan, record);
    assert forall|i: int| 0 <= i < values.len() implies (#[trigger] values[i]).raw
        < made.id.raw by {}
    lemma_shapes_below(made.plan, values, made.id);
}

/// The patterns of alternatives.
pub open spec fn case_patterns(plan: Seq<Step>, alternatives: Seq<PlanId>) -> Seq<Shape> {
    Seq::new(
        alternatives.len(),
        |i: int| shape(plan, (alternative(plan, alternatives[i])->0).0),
    )
}

/// The bodies of alternatives.
pub open spec fn case_bodies(plan: Seq<Step>, alternatives: Seq<PlanId>) -> Seq<Shape> {
    Seq::new(
        alternatives.len(),
        |i: int| shape(plan, (alternative(plan, alternatives[i])->0).1),
    )
}

/// A case expression.
pub open spec fn cases_by(scrutinee: Shape, patterns: Seq<Shape>, bodies: Seq<Shape>) -> Shape {
    Shape::Cases { scrutinee: Box::new(scrutinee), patterns, bodies }
}

/// A case expression has the patterns and the bodies of its alternatives.
pub proof fn lemma_cases(
    plan: Seq<Step>,
    type_id: super::super::types::TypeId,
    scrutinee: PlanId,
    alternatives: Seq<PlanId>,
)
    requires
        plan.len() <= usize::MAX,
        scrutinee.raw < plan.len(),
        forall|i: int|
            0 <= i < alternatives.len() ==> (alternative(plan, #[trigger] alternatives[i])
                matches Some((pattern, body)) && is_alternative(
                plan,
                alternatives[i],
                pattern,
                body,
            )),
    ensures
        ({
            let made = stepped(plan, Step::Case { type_id, scrutinee, alternatives });
            shape(made.plan, made.id) == cases_by(
                shape(plan, scrutinee),
                case_patterns(plan, alternatives),
                case_bodies(plan, alternatives),
            )
        }),
{
    let step = Step::Case { type_id, scrutinee, alternatives };
    let case = stepped(plan, step);
    lemma_stepped(plan, step);
    lemma_shape_continues(plan, case.plan, scrutinee);
    let patterns = patterns_of(case.plan, alternatives, case.id);
    let bodies = bodies_of(case.plan, alternatives, case.id);
    assert forall|i: int| 0 <= i < alternatives.len() implies {
        &&& (#[trigger] patterns[i]).raw < plan.len()
        &&& bodies[i].raw < plan.len()
        &&& patterns[i] == (alternative(plan, alternatives[i])->0).0
        &&& bodies[i] == (alternative(plan, alternatives[i])->0).1
    } by {
        let (pattern, body) = alternative(plan, alternatives[i])->0;
        assert(is_alternative(plan, alternatives[i], pattern, body));
        assert(case.plan[alternatives[i].raw as int] == plan[alternatives[i].raw as int]);
    }
    assert forall|i: int| 0 <= i < bodies.len() implies (#[trigger] bodies[i]).raw
        < case.id.raw by {
        assert(patterns[i].raw < plan.len());
    }
    lemma_shapes_below(case.plan, patterns, case.id);
    lemma_shapes_below(case.plan, bodies, case.id);
    assert forall|i: int| 0 <= i < alternatives.len() implies {
        &&& shape(case.plan, #[trigger] patterns[i]) == shape(plan, patterns[i])
        &&& shape(case.plan, bodies[i]) == shape(plan, bodies[i])
    } by {
        lemma_shape_continues(plan, case.plan, patterns[i]);
        lemma_shape_continues(plan, case.plan, bodies[i]);
    }
    assert(shapes(case.plan, patterns) =~= case_patterns(plan, alternatives));
    assert(shapes(case.plan, bodies) =~= case_bodies(plan, alternatives)) by {
        assert forall|i: int| 0 <= i < bodies.len() implies shapes(case.plan, bodies)[i]
            == case_bodies(plan, alternatives)[i] by {
            assert(patterns[i].raw < plan.len());
        }
    }
}

/// An alternative has its pattern and its body, which come before it.
pub open spec fn is_alternative(plan: Seq<Step>, id: PlanId, pattern: PlanId, body: PlanId) -> bool {
    &&& id.raw < plan.len()
    &&& plan[id.raw as int] == (Step::Alternative { pattern, body })
    &&& pattern.raw < id.raw
    &&& body.raw < id.raw
}

/// A function of a value by cases takes the value apart by the patterns and bodies of the
/// alternatives.
pub proof fn lemma_function_by_cases(
    plan: Seq<Step>,
    value: PlanId,
    scrutinee: PlanId,
    alternatives: Seq<PlanId>,
    type_id: super::super::types::TypeId,
    planned: PlannedType,
)
    requires
        plan.len() + 1 <= usize::MAX,
        value.raw < plan.len(),
        scrutinee.raw < plan.len(),
        forall|i: int|
            0 <= i < alternatives.len() ==> (alternative(plan, #[trigger] alternatives[i])
                matches Some((pattern, body)) && is_alternative(
                plan,
                alternatives[i],
                pattern,
                body,
            )),
    ensures
        ({
            let case = stepped(plan, Step::Case { type_id, scrutinee, alternatives });
            let made = stepped(
                case.plan,
                Step::Lambda { planned, binders: seq![value], body: case.id },
            );
            &&& continues(plan, made.plan)
            &&& made.plan.len() == plan.len() + 2
            &&& made.id.raw < made.plan.len()
            &&& shape(made.plan, made.id) matches Shape::Function { binders, body }
            &&& binders == seq![shape(plan, value)]
            &&& *body matches Shape::Cases { scrutinee: taken, patterns, bodies }
            &&& *taken == shape(plan, scrutinee)
            &&& patterns.len() == alternatives.len()
            &&& bodies.len() == alternatives.len()
            &&& forall|i: int|
                0 <= i < alternatives.len() ==> #[trigger] patterns[i] == shape(
                    plan,
                    (alternative(plan, alternatives[i])->0).0,
                )
            &&& forall|i: int|
                0 <= i < alternatives.len() ==> #[trigger] bodies[i] == shape(
                    plan,
                    (alternative(plan, alternatives[i])->0).1,
                )
        }),
{
    let step = Step::Case { type_id, scrutinee, alternatives };
    let case = stepped(plan, step);
    lemma_stepped(plan, step);
    let outer = Step::Lambda { planned, binders: seq![value], body: case.id };
    let made = stepped(case.plan, outer);
    lemma_stepped(case.plan, outer);
    lemma_shape_continues(case.plan, made.plan, case.id);
    lemma_shape_continues(plan, made.plan, value);
    lemma_shape_continues(plan, case.plan, scrutinee);
    lemma_shapes_below(made.plan, seq![value], made.id);
    assert(shapes(made.plan, seq![value]) =~= seq![shape(plan, value)]);
    let patterns = patterns_of(case.plan, alternatives, case.id);
    let bodies = bodies_of(case.plan, alternatives, case.id);
    assert forall|i: int| 0 <= i < alternatives.len() implies {
        &&& (#[trigger] patterns[i]).raw < plan.len()
        &&& bodies[i].raw < plan.len()
        &&& patterns[i] == (alternative(plan, alternatives[i])->0).0
        &&& bodies[i] == (alternative(plan, alternatives[i])->0).1
    } by {
        let (pattern, body) = alternative(plan, alternatives[i])->0;
        assert(is_alternative(plan, alternatives[i], pattern, body));
        assert(case.plan[alternatives[i].raw as int] == plan[alternatives[i].raw as int]);
    }
    assert forall|i: int| 0 <= i < bodies.len() implies (#[trigger] bodies[i]).raw
        < case.id.raw by {
        assert(patterns[i].raw < plan.len());
    }
    lemma_shapes_below(case.plan, patterns, case.id);
    lemma_shapes_below(case.plan, bodies, case.id);
    assert forall|i: int| 0 <= i < alternatives.len() implies {
        &&& shape(case.plan, #[trigger] patterns[i]) == shape(plan, patterns[i])
        &&& shape(case.plan, bodies[i]) == shape(plan, bodies[i])
    } by {
        lemma_shape_continues(plan, case.plan, patterns[i]);
        lemma_shape_continues(plan, case.plan, bodies[i]);
    }
    assert forall|i: int| 0 <= i < alternatives.len() implies #[trigger] shapes(
        case.plan,
        patterns,
    )[i] == shape(plan, (alternative(plan, alternatives[i])->0).0) by {
        assert(patterns[i].raw < plan.len());
    }
    assert forall|i: int| 0 <= i < alternatives.len() implies #[trigger] shapes(
        case.plan,
        bodies,
    )[i] == shape(plan, (alternative(plan, alternatives[i])->0).1) by {
        assert(patterns[i].raw < plan.len());
    }
}

/// One more step that reads as a binder is bound.
pub proof fn lemma_bounds_push(
    before: Seq<Step>,
    after: Seq<Step>,
    ids: Seq<PlanId>,
    binders: Seq<PlanId>,
    id: PlanId,
    binder: PlanId,
)
    requires
        shapes(after, ids) == bounds(binders),
        shape(after, id) == (Shape::Bound { binder }),
    ensures
        shapes(after, ids.push(id)) == bounds(binders.push(binder)),
{
    assert(shapes(after, ids).len() == ids.len());
    assert(bounds(binders).len() == binders.len());
    assert(ids.len() == binders.len());
    let longer = ids.push(id);
    let all = binders.push(binder);
    assert forall|i: int| 0 <= i < longer.len() implies shape(after, #[trigger] longer[i]) == (
    Shape::Bound { binder: all[i] }) by {
        if i < ids.len() {
            assert(shapes(after, ids)[i] == bounds(binders)[i]);
            assert(shapes(after, ids)[i] == shape(after, ids[i]));
        }
    }
    assert(shapes(after, longer) =~= bounds(all));
}

/// The binders, as they are bound.
pub open spec fn bounds(ids: Seq<PlanId>) -> Seq<Shape> {
    Seq::new(ids.len(), |i: int| Shape::Bound { binder: ids[i] })
}

} // verus!
