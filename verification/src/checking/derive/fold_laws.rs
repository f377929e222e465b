//! What derived folds do: they visit what they fold in order.

use super::super::types::FileId;
use super::field::FieldType;
use super::foldable::{made, member_operation, FoldEmitter, FoldOperation, TraversalKind};
use super::plan::{
    continues, group_continues, plain_type, stepped, Emission, KnownTerms, PlanId, Step,
};
use super::shapes::{
    apply, function_of, lemma_applied, lemma_as_type, lemma_function, lemma_reference,
    lemma_shape_continues, lemma_shapes_continue, lemma_stepped, shape, shapes, within, Shape,
};
use super::variance::{TraversalOperation, TraversalParameter};
use crate::indexing::items::TermItemId;
use vstd::prelude::*;

verus! {

broadcast use group_continues;

/// What a fold does with one element: a right fold takes the element first, a left fold
/// the accumulator; a fold that maps takes the element alone.
pub open spec fn folded_once(
    operation: FoldOperation,
    function: Shape,
    value: Shape,
    accumulator: Option<Shape>,
) -> Shape {
    match (operation, accumulator) {
        (FoldOperation::Right, Some(accumulator)) => apply(apply(function, value), accumulator),
        (FoldOperation::Left, Some(accumulator)) => apply(apply(function, accumulator), value),
        _ => apply(function, value),
    }
}

/// The shape of what was made, if anything was.
pub open spec fn optional_shape(plan: Seq<Step>, id: Option<PlanId>) -> Option<Shape> {
    match id {
        Some(id) => Some(shape(plan, id)),
        None => None,
    }
}

/// What was made is a step of the plan, if anything was.
pub open spec fn optionally_within(plan: Seq<Step>, id: Option<PlanId>) -> bool {
    id matches Some(id) ==> id.raw < plan.len()
}

/// An element of a parameter's type is folded by the parameter's own function.
pub proof fn lemma_element_folded(
    emitter: FoldEmitter,
    parameter: TraversalParameter,
    value: PlanId,
    accumulator: Option<PlanId>,
    plan: Seq<Step>,
)
    requires
        emitter.parameter_folded(parameter, value, accumulator, plan) matches Some(folded)
            && folded.plan.len() <= usize::MAX,
        value.raw < plan.len(),
        optionally_within(plan, accumulator),
        emitter.mapping_expressions.of(parameter) matches Some(mapping) ==> mapping.raw
            < plan.len(),
    ensures
        ({
            let folded = emitter.parameter_folded(parameter, value, accumulator, plan)->0;
            let mapping = emitter.mapping_expressions.of(parameter)->0;
            &&& emitter.mapping_expressions.of(parameter) is Some
            &&& !(emitter.operation is MapEach) ==> accumulator is Some
            &&& shape(folded.plan, folded.id) == folded_once(
                emitter.operation,
                shape(plan, mapping),
                shape(plan, value),
                optional_shape(plan, accumulator),
            )
            &&& continues(plan, folded.plan)
            &&& folded.id.raw < folded.plan.len()
        }),
{
    let folded = emitter.parameter_folded(parameter, value, accumulator, plan)->0;
    let mapping = emitter.mapping_expressions.of(parameter)->0;
    let planned = plain_type(emitter.accumulator_type);
    match (emitter.operation, accumulator) {
        (FoldOperation::Right, Some(accumulator)) => {
            let first = made(plan, mapping).applied(value);
            lemma_applied(made(plan, mapping), value);
            lemma_shape_continues(plan, first.plan, accumulator);
            let second = first.applied(accumulator);
            lemma_applied(first, accumulator);
            lemma_as_type(second, planned);
        },
        (FoldOperation::Left, Some(accumulator)) => {
            let first = made(plan, mapping).applied(accumulator);
            lemma_applied(made(plan, mapping), accumulator);
            lemma_shape_continues(plan, first.plan, value);
            let second = first.applied(value);
            lemma_applied(first, value);
            lemma_as_type(second, planned);
        },
        _ => {
            lemma_applied(made(plan, mapping), value);
            lemma_as_type(made(plan, mapping).applied(value), planned);
        },
    }
}

/// A fold of a container takes the functions for its elements, then the accumulator, if
/// there is one, and the container last.
pub proof fn lemma_delegated(
    emitter: FoldEmitter,
    function: Emission,
    value: PlanId,
    accumulator: Option<PlanId>,
)
    requires
        emitter.delegated(function, value, accumulator) matches Some(folded) && folded.plan.len()
            <= usize::MAX,
        function.id.raw < function.plan.len(),
        value.raw < function.plan.len(),
        optionally_within(function.plan, accumulator),
    ensures
        ({
            let folded = emitter.delegated(function, value, accumulator)->0;
            let plan = function.plan;
            &&& shape(folded.plan, folded.id) == if emitter.operation is MapEach {
                apply(shape(plan, function.id), shape(plan, value))
            } else {
                apply(
                    apply(shape(plan, function.id), shape(plan, accumulator->0)),
                    shape(plan, value),
                )
            }
            &&& continues(plan, folded.plan)
            &&& folded.id.raw < folded.plan.len()
        }),
{
    let planned = plain_type(emitter.accumulator_type);
    if emitter.operation is MapEach {
        lemma_applied(function, value);
        lemma_as_type(function.applied(value), planned);
    } else {
        let first = function.applied(accumulator->0);
        lemma_applied(function, accumulator->0);
        lemma_shape_continues(function.plan, first.plan, value);
        lemma_applied(first, value);
        lemma_as_type(first.applied(value), planned);
    }
}

/// A function that folds an element takes the element first for a right fold, the
/// accumulator first for a left fold, and the element alone for a fold that maps.
pub proof fn lemma_folder(
    emitter: FoldEmitter,
    source: super::super::types::TypeId,
    element: PlanId,
    accumulator: PlanId,
    body: Emission,
)
    requires
        body.plan.len() <= usize::MAX,
        body.id.raw < body.plan.len(),
        element.raw < body.plan.len(),
        !(emitter.operation is MapEach) ==> accumulator.raw < body.plan.len(),
    ensures
        ({
            let function = emitter.function_of(source, element, Some(accumulator), body);
            let plan = body.plan;
            shape(function.plan, function.id) == function_of(
                match emitter.operation {
                    FoldOperation::Right => seq![shape(plan, element), shape(plan, accumulator)],
                    FoldOperation::Left => seq![shape(plan, accumulator), shape(plan, element)],
                    FoldOperation::MapEach => seq![shape(plan, element)],
                },
                shape(plan, body.id),
            )
        }),
{
    let binders = match emitter.operation {
        FoldOperation::Right => seq![element, accumulator],
        FoldOperation::Left => seq![accumulator, element],
        FoldOperation::MapEach => seq![element],
    };
    let planned = emitter.transformer_type(source);
    lemma_function(body.plan, planned, binders, body.id);
    let expected = match emitter.operation {
        FoldOperation::Right => seq![shape(body.plan, element), shape(body.plan, accumulator)],
        FoldOperation::Left => seq![shape(body.plan, accumulator), shape(body.plan, element)],
        FoldOperation::MapEach => seq![shape(body.plan, element)],
    };
    assert(shapes(body.plan, binders) =~= expected);
}

/// A function that ignores an element gives the accumulator back, or the neutral element
/// for a fold that maps.
pub proof fn lemma_ignored(emitter: FoldEmitter, source: FieldType, plan: Seq<Step>)
    requires
        emitter.ignoring(source, plan) matches Some(function) && function.plan.len() <= usize::MAX,
    ensures
        ({
            let function = emitter.ignoring(source, plan)->0;
            exists|element: PlanId, accumulator: PlanId|
                shape(function.plan, function.id) == #[trigger] ignoring_shape(
                    emitter.operation,
                    emitter.known,
                    element,
                    accumulator,
                )
        }),
{
    let first = Step::Binder { name: "ignored"@, type_id: source.identity() };
    let element = stepped(plan, first);
    let second = Step::Binder { name: "accumulator"@, type_id: emitter.accumulator_type };
    let accumulator = stepped(element.plan, second);
    let third = Step::Variable { binder: accumulator.id };
    lemma_stepped(plan, first);
    if emitter.operation is MapEach {
        let resolution = emitter.known.mempty->0;
        let neutral = stepped(element.plan, Step::Reference { resolution });
        let planned = plain_type(emitter.accumulator_type);
        let body = neutral.as_type(planned);
        lemma_reference(element.plan, resolution);
        lemma_as_type(neutral, planned);
        lemma_shape_continues(element.plan, body.plan, element.id);
        lemma_folder(emitter, source.identity(), element.id, accumulator.id, body);
    } else {
        let body = stepped(accumulator.plan, third);
        lemma_stepped(element.plan, second);
        lemma_stepped(accumulator.plan, third);
        lemma_shape_continues(element.plan, body.plan, element.id);
        lemma_shape_continues(accumulator.plan, body.plan, accumulator.id);
        lemma_folder(emitter, source.identity(), element.id, accumulator.id, body);
    }
    let function = emitter.ignoring(source, plan)->0;
    assert(shape(function.plan, function.id) == ignoring_shape(
        emitter.operation,
        emitter.known,
        element.id,
        accumulator.id,
    ));
}

/// A function that ignores an element.
pub open spec fn ignoring_shape(
    operation: FoldOperation,
    known: KnownTerms,
    element: PlanId,
    accumulator: PlanId,
) -> Shape {
    let element = Shape::Bound { binder: element };
    let accumulator = Shape::Bound { binder: accumulator };
    match operation {
        FoldOperation::Right => function_of(seq![element, accumulator], accumulator),
        FoldOperation::Left => function_of(seq![accumulator, element], accumulator),
        FoldOperation::MapEach => function_of(
            seq![element],
            Shape::Term { resolution: known.mempty->0 },
        ),
    }
}

// Contributions

/// Contributions one after the other, put together from the right.
pub open spec fn together(append: Shape, parts: Seq<Shape>) -> Shape
    decreases parts.len(),
{
    if parts.len() <= 1 {
        parts[0]
    } else {
        apply(apply(append, parts[0]), together(append, parts.skip(1)))
    }
}

proof fn lemma_appended_grows(
    emitter: FoldEmitter,
    contributions: Seq<PlanId>,
    count: nat,
    accumulated: Emission,
)
    ensures
        emitter.appended(contributions, count, accumulated) matches Some(result) ==> continues(
            accumulated.plan,
            result.plan,
        ),
    decreases count,
{
    if count > 0 && count <= contributions.len() {
        if let Some(resolution) = emitter.known.append {
            let next = stepped(accumulated.plan, Step::Reference { resolution }).applied(
                contributions[count - 1],
            ).applied(accumulated.id).as_type(plain_type(emitter.accumulator_type));
            lemma_appended_grows(emitter, contributions, (count - 1) as nat, next);
            assert(continues(accumulated.plan, next.plan));
        }
    }
}

proof fn lemma_appended(
    emitter: FoldEmitter,
    contributions: Seq<PlanId>,
    count: nat,
    accumulated: Emission,
    plan: Seq<Step>,
)
    requires
        count < contributions.len(),
        continues(plan, accumulated.plan),
        within(plan, contributions),
        accumulated.id.raw < accumulated.plan.len(),
        emitter.appended(contributions, count, accumulated) matches Some(result)
            && result.plan.len() <= usize::MAX,
        count > 0 ==> emitter.known.append is Some,
        shape(accumulated.plan, accumulated.id) == together(
            Shape::Term { resolution: emitter.known.append->0 },
            shapes(plan, contributions).skip(count as int),
        ),
    ensures
        ({
            let result = emitter.appended(contributions, count, accumulated)->0;
            &&& shape(result.plan, result.id) == together(
                Shape::Term { resolution: emitter.known.append->0 },
                shapes(plan, contributions),
            )
            &&& result.id.raw < result.plan.len()
            &&& continues(accumulated.plan, result.plan)
        }),
    decreases count,
{
    let parts = shapes(plan, contributions);
    lemma_appended_grows(emitter, contributions, count, accumulated);
    if count == 0 {
        assert(parts.skip(0) =~= parts);
    } else {
        let resolution = emitter.known.append->0;
        let contribution = contributions[count - 1];
        assert(contribution.raw < plan.len());
        let reference = stepped(accumulated.plan, Step::Reference { resolution });
        let first = reference.applied(contribution);
        let second = first.applied(accumulated.id);
        let planned = plain_type(emitter.accumulator_type);
        let next = second.as_type(planned);
        lemma_appended_grows(emitter, contributions, (count - 1) as nat, next);
        lemma_reference(accumulated.plan, resolution);
        lemma_shape_continues(plan, reference.plan, contribution);
        lemma_applied(reference, contribution);
        lemma_shape_continues(accumulated.plan, first.plan, accumulated.id);
        lemma_applied(first, accumulated.id);
        lemma_as_type(second, planned);
        let rest = parts.skip(count - 1);
        assert(rest.skip(1) =~= parts.skip(count as int));
        assert(rest[0] == shape(plan, contribution));
        assert(continues(plan, next.plan));
        lemma_appended(emitter, contributions, (count - 1) as nat, next, plan);
    }
}

/// Contributions are put together in their order; without any there is the neutral
/// element.
pub proof fn lemma_combined(emitter: FoldEmitter, contributions: Seq<PlanId>, plan: Seq<Step>)
    requires
        within(plan, contributions),
        emitter.combined(contributions, plan) matches Some(result) && result.plan.len()
            <= usize::MAX,
    ensures
        ({
            let result = emitter.combined(contributions, plan)->0;
            &&& contributions.len() == 0 ==> emitter.known.mempty is Some && shape(
                result.plan,
                result.id,
            ) == (Shape::Term { resolution: emitter.known.mempty->0 })
            &&& contributions.len() > 0 ==> shape(result.plan, result.id) == together(
                Shape::Term { resolution: emitter.known.append->0 },
                shapes(plan, contributions),
            )
            &&& continues(plan, result.plan)
            &&& result.id.raw < result.plan.len()
        }),
{
    if contributions.len() == 0 {
        let resolution = emitter.known.mempty->0;
        lemma_reference(plan, resolution);
        lemma_as_type(
            stepped(plan, Step::Reference { resolution }),
            plain_type(emitter.accumulator_type),
        );
    } else {
        let parts = shapes(plan, contributions);
        let last = contributions.len() - 1;
        assert(contributions[last].raw < plan.len());
        assert(parts.skip(last) =~= seq![shape(plan, contributions.last())]);
        lemma_appended(emitter, contributions, last as nat, made(plan, contributions.last()), plan);
    }
}

// Fields

/// All fields are elements of the first parameter's type.
pub open spec fn are_elements(operations: Seq<Option<TraversalOperation>>) -> bool {
    forall|i: int|
        0 <= i < operations.len() ==> (#[trigger] operations[i]) == Some(
            TraversalOperation::Parameter { parameter: TraversalParameter::First },
        )
}

/// The right fold of values: the first of them is outermost.
pub open spec fn right_fold(function: Shape, values: Seq<Shape>, initial: Shape) -> Shape
    decreases values.len(),
{
    if values.len() == 0 {
        initial
    } else {
        apply(apply(function, values[0]), right_fold(function, values.skip(1), initial))
    }
}

/// The left fold of values: the last of them is outermost.
pub open spec fn left_fold(function: Shape, values: Seq<Shape>, initial: Shape) -> Shape
    decreases values.len(),
{
    if values.len() == 0 {
        initial
    } else {
        apply(
            apply(function, left_fold(function, values.drop_last(), initial)),
            values.last(),
        )
    }
}

proof fn lemma_right_fold_push(function: Shape, values: Seq<Shape>, last: Shape, initial: Shape)
    ensures
        right_fold(function, values.push(last), initial) == right_fold(
            function,
            values,
            apply(apply(function, last), initial),
        ),
    decreases values.len(),
{
    let all = values.push(last);
    if values.len() == 0 {
        assert(all.skip(1) =~= Seq::empty());
        assert(right_fold(function, all.skip(1), initial) == initial);
    } else {
        assert(all.skip(1) =~= values.skip(1).push(last));
        lemma_right_fold_push(function, values.skip(1), last, initial);
    }
}

proof fn lemma_fields_right_grow(
    emitter: FoldEmitter,
    operations: Seq<Option<TraversalOperation>>,
    count: nat,
    sources: Seq<FieldType>,
    values: Seq<PlanId>,
    accumulated: Emission,
)
    requires
        are_elements(operations),
    ensures
        emitter.fields_right(operations, count, sources, values, accumulated) matches Some(result)
            ==> continues(accumulated.plan, result.plan),
    decreases count,
{
    if count > 0 && count <= operations.len() {
        let rest = (count - 1) as nat;
        assert(operations[rest as int] == Some(
            TraversalOperation::Parameter { parameter: TraversalParameter::First },
        ));
        if let Some(folded) = emitter.parameter_folded(
            TraversalParameter::First,
            values[rest as int],
            Some(accumulated.id),
            accumulated.plan,
        ) {
            lemma_fields_right_grow(emitter, operations, rest, sources, values, folded);
            assert(continues(accumulated.plan, folded.plan));
        }
    }
}

/// The right fold of a constructor whose fields are all elements is the right fold of
/// its fields, from the first to the last.
pub proof fn lemma_fields_right(
    emitter: FoldEmitter,
    operations: Seq<Option<TraversalOperation>>,
    count: nat,
    sources: Seq<FieldType>,
    values: Seq<PlanId>,
    accumulated: Emission,
    plan: Seq<Step>,
    mapping: PlanId,
)
    requires
        emitter.operation is Right,
        are_elements(operations),
        count <= operations.len(),
        values.len() == operations.len(),
        continues(plan, accumulated.plan),
        within(plan, values),
        emitter.mapping_expressions.of(TraversalParameter::First) == Some(mapping),
        mapping.raw < plan.len(),
        accumulated.id.raw < accumulated.plan.len(),
        emitter.fields_right(operations, count, sources, values, accumulated) matches Some(result)
            && result.plan.len() <= usize::MAX,
    ensures
        ({
            let result = emitter.fields_right(operations, count, sources, values, accumulated)->0;
            shape(result.plan, result.id) == right_fold(
                shape(plan, mapping),
                shapes(plan, values).take(count as int),
                shape(accumulated.plan, accumulated.id),
            )
        }),
    decreases count,
{
    let all = shapes(plan, values);
    lemma_fields_right_grow(emitter, operations, count, sources, values, accumulated);
    if count == 0 {
        assert(all.take(0) =~= Seq::empty());
    } else {
        let rest = (count - 1) as nat;
        let value = values[rest as int];
        assert(value.raw < plan.len());
        assert(operations[rest as int] == Some(
            TraversalOperation::Parameter { parameter: TraversalParameter::First },
        ));
        let folded = emitter.parameter_folded(
            TraversalParameter::First,
            value,
            Some(accumulated.id),
            accumulated.plan,
        )->0;
        lemma_fields_right_grow(emitter, operations, rest, sources, values, folded);
        lemma_element_folded(
            emitter,
            TraversalParameter::First,
            value,
            Some(accumulated.id),
            accumulated.plan,
        );
        lemma_shape_continues(plan, accumulated.plan, value);
        lemma_shape_continues(plan, accumulated.plan, mapping);
        lemma_fields_right(
            emitter,
            operations,
            rest,
            sources,
            values,
            folded,
            plan,
            mapping,
        );
        lemma_right_fold_push(
            shape(plan, mapping),
            all.take(rest as int),
            shape(plan, value),
            shape(accumulated.plan, accumulated.id),
        );
        assert(all.take(count as int) =~= all.take(rest as int).push(shape(plan, value)));
    }
}

proof fn lemma_fields_left_grow(
    emitter: FoldEmitter,
    operations: Seq<Option<TraversalOperation>>,
    count: nat,
    sources: Seq<FieldType>,
    values: Seq<PlanId>,
    accumulated: Emission,
)
    requires
        are_elements(operations),
    ensures
        emitter.fields_left(operations, count, sources, values, accumulated) matches Some(result)
            ==> continues(accumulated.plan, result.plan),
    decreases count,
{
    if count > 0 && count <= operations.len() {
        let rest = (count - 1) as nat;
        assert(operations[rest as int] == Some(
            TraversalOperation::Parameter { parameter: TraversalParameter::First },
        ));
        lemma_fields_left_grow(emitter, operations, rest, sources, values, accumulated);
        if let Some(before) = emitter.fields_left(operations, rest, sources, values, accumulated) {
            if let Some(folded) = emitter.parameter_folded(
                TraversalParameter::First,
                values[rest as int],
                Some(before.id),
                before.plan,
            ) {
                assert(continues(before.plan, folded.plan));
            }
        }
    }
}

/// The left fold of a constructor whose fields are all elements is the left fold of its
/// fields, from the first to the last.
pub proof fn lemma_fields_left(
    emitter: FoldEmitter,
    operations: Seq<Option<TraversalOperation>>,
    count: nat,
    sources: Seq<FieldType>,
    values: Seq<PlanId>,
    accumulated: Emission,
    plan: Seq<Step>,
    mapping: PlanId,
)
    requires
        emitter.operation is Left,
        are_elements(operations),
        count <= operations.len(),
        values.len() == operations.len(),
        continues(plan, accumulated.plan),
        within(plan, values),
        emitter.mapping_expressions.of(TraversalParameter::First) == Some(mapping),
        mapping.raw < plan.len(),
        accumulated.id.raw < accumulated.plan.len(),
        emitter.fields_left(operations, count, sources, values, accumulated) matches Some(result)
            && result.plan.len() <= usize::MAX,
    ensures
        ({
            let result = emitter.fields_left(operations, count, sources, values, accumulated)->0;
            &&& shape(result.plan, result.id) == left_fold(
                shape(plan, mapping),
                shapes(plan, values).take(count as int),
                shape(accumulated.plan, accumulated.id),
            )
            &&& result.id.raw < result.plan.len()
        }),
    decreases count,
{
    let all = shapes(plan, values);
    lemma_fields_left_grow(emitter, operations, count, sources, values, accumulated);
    if count == 0 {
        assert(all.take(0) =~= Seq::empty());
    } else {
        let rest = (count - 1) as nat;
        let value = values[rest as int];
        assert(value.raw < plan.len());
        assert(operations[rest as int] == Some(
            TraversalOperation::Parameter { parameter: TraversalParameter::First },
        ));
        let before = emitter.fields_left(operations, rest, sources, values, accumulated)->0;
        lemma_fields_left_grow(emitter, operations, rest, sources, values, accumulated);
        let folded = emitter.parameter_folded(
            TraversalParameter::First,
            value,
            Some(before.id),
            before.plan,
        )->0;
        assert(continues(before.plan, folded.plan));
        lemma_fields_left(
            emitter,
            operations,
            rest,
            sources,
            values,
            accumulated,
            plan,
            mapping,
        );
        lemma_element_folded(
            emitter,
            TraversalParameter::First,
            value,
            Some(before.id),
            before.plan,
        );
        lemma_shape_continues(plan, before.plan, value);
        lemma_shape_continues(plan, before.plan, mapping);
        let taken = all.take(count as int);
        assert(taken.drop_last() =~= all.take(rest as int));
        assert(taken.last() == shape(plan, value));
    }
}

// Members

/// Each member of the class is the fold of its own name.
pub proof fn lemma_member_operations(
    traversal: TraversalKind,
    known: KnownTerms,
    member: (FileId, TermItemId),
)
    ensures
        ({
            let (right, left, each) = match traversal {
                TraversalKind::Foldable => (known.foldr, known.foldl, known.fold_map),
                TraversalKind::Bifoldable => (known.bifoldr, known.bifoldl, known.bifold_map),
            };
            let operation = member_operation(traversal, known, member);
            &&& operation == Some(FoldOperation::Right) ==> right == Some(member)
            &&& operation == Some(FoldOperation::Left) ==> left == Some(member)
            &&& operation == Some(FoldOperation::MapEach) ==> each == Some(member)
            &&& operation is None ==> right != Some(member) && left != Some(member) && each
                != Some(member)
        }),
{
}

/// The fold of a fold's own kind.
pub open spec fn fold_of(
    operation: FoldOperation,
    right: Option<(FileId, TermItemId)>,
    left: Option<(FileId, TermItemId)>,
    each: Option<(FileId, TermItemId)>,
) -> Option<(FileId, TermItemId)> {
    match operation {
        FoldOperation::Right => right,
        FoldOperation::Left => left,
        FoldOperation::MapEach => each,
    }
}

/// The functions applied to the accumulator, if there is one, and then to the value.
pub open spec fn fold_called(
    operation: FoldOperation,
    function: Shape,
    value: Shape,
    accumulator: Option<Shape>,
) -> Shape {
    match operation {
        FoldOperation::MapEach => apply(function, value),
        _ => apply(apply(function, accumulator->0), value),
    }
}

/// A container is folded by the fold of the same kind, with the function for its
/// elements.
pub proof fn lemma_container_folded(
    emitter: FoldEmitter,
    argument: TraversalOperation,
    value: PlanId,
    accumulator: Option<PlanId>,
    source: FieldType,
    plan: Seq<Step>,
    folder: Emission,
)
    requires
        source.applied() matches Some((_, element)) && emitter.transformer(argument, element, plan)
            == Some(folder),
        continues(plan, folder.plan),
        folder.id.raw < folder.plan.len(),
        value.raw < plan.len(),
        optionally_within(plan, accumulator),
        emitter.unary_folded(argument, value, accumulator, source, plan) matches Some(folded)
            && folded.plan.len() <= usize::MAX,
    ensures
        ({
            let folded = emitter.unary_folded(argument, value, accumulator, source, plan)->0;
            let known = emitter.known;
            let term = fold_of(emitter.operation, known.foldr, known.foldl, known.fold_map);
            &&& term is Some
            &&& shape(folded.plan, folded.id) == fold_called(
                emitter.operation,
                apply(Shape::Term { resolution: term->0 }, shape(folder.plan, folder.id)),
                shape(plan, value),
                optional_shape(plan, accumulator),
            )
        }),
{
    let resolution = emitter.unary_term()->0;
    let reference = stepped(folder.plan, Step::Reference { resolution });
    let function = reference.applied(folder.id);
    assert(continues(folder.plan, function.plan));
    lemma_reference(folder.plan, resolution);
    lemma_shape_continues(folder.plan, reference.plan, folder.id);
    lemma_applied(reference, folder.id);
    lemma_shape_continues(plan, function.plan, value);
    if let Some(initial) = accumulator {
        lemma_shape_continues(plan, function.plan, initial);
    }
    lemma_delegated(emitter, function, value, accumulator);
}

/// The signature of a fold has its functions first, then the accumulator, if there is
/// one, and the structure last.
pub proof fn lemma_fold_signature(
    traversal: TraversalKind,
    operation: FoldOperation,
    arguments: Seq<super::super::types::TypeId>,
    result: super::super::types::TypeId,
)
    requires
        super::foldable::fold_signature(traversal, operation, arguments, result) is Some,
    ensures
        ({
            let (mappings, accumulator, structure) = super::foldable::fold_signature(
                traversal,
                operation,
                arguments,
                result,
            )->0;
            let count = arguments.len();
            &&& structure == arguments[count - 1]
            &&& operation is MapEach ==> accumulator == result
            &&& !(operation is MapEach) ==> accumulator == arguments[count - 2]
            &&& mappings.of(TraversalParameter::First) == Some(arguments[0])
            &&& traversal is Bifoldable ==> mappings.of(TraversalParameter::Second) == Some(
                arguments[1],
            )
            &&& traversal is Foldable ==> mappings.of(TraversalParameter::Second) is None
        }),
{
}

proof fn lemma_fields_map_grow(
    emitter: FoldEmitter,
    operations: Seq<Option<TraversalOperation>>,
    count: nat,
    sources: Seq<FieldType>,
    values: Seq<PlanId>,
    plan: Seq<Step>,
)
    requires
        are_elements(operations),
    ensures
        emitter.fields_map(operations, count, sources, values, plan) matches Some((after, _))
            ==> continues(plan, after),
    decreases count,
{
    if count > 0 && count <= operations.len() {
        let rest = (count - 1) as nat;
        assert(operations[rest as int] == Some(
            TraversalOperation::Parameter { parameter: TraversalParameter::First },
        ));
        lemma_fields_map_grow(emitter, operations, rest, sources, values, plan);
        if let Some((before, _)) = emitter.fields_map(operations, rest, sources, values, plan) {
            if let Some(folded) = emitter.parameter_folded(
                TraversalParameter::First,
                values[rest as int],
                None,
                before,
            ) {
                assert(continues(before, folded.plan));
            }
        }
    }
}

/// What a constructor whose fields are all elements contributes is what the function
/// gives for each of its fields, in order.
pub proof fn lemma_fields_map(
    emitter: FoldEmitter,
    operations: Seq<Option<TraversalOperation>>,
    count: nat,
    sources: Seq<FieldType>,
    values: Seq<PlanId>,
    plan: Seq<Step>,
    mapping: PlanId,
)
    requires
        emitter.operation is MapEach,
        are_elements(operations),
        count <= operations.len(),
        values.len() == operations.len(),
        within(plan, values),
        emitter.mapping_expressions.of(TraversalParameter::First) == Some(mapping),
        mapping.raw < plan.len(),
        emitter.fields_map(operations, count, sources, values, plan) matches Some((after, _))
            && after.len() <= usize::MAX,
    ensures
        ({
            let (after, contributions) = emitter.fields_map(
                operations,
                count,
                sources,
                values,
                plan,
            )->0;
            &&& within(after, contributions)
            &&& shapes(after, contributions) == Seq::new(
                count,
                |i: int| apply(shape(plan, mapping), shape(plan, values[i])),
            )
        }),
    decreases count,
{
    let (after, contributions) = emitter.fields_map(operations, count, sources, values, plan)->0;
    let expected = Seq::new(count, |i: int| apply(shape(plan, mapping), shape(plan, values[i])));
    lemma_fields_map_grow(emitter, operations, count, sources, values, plan);
    if count > 0 {
        let rest = (count - 1) as nat;
        let value = values[rest as int];
        assert(value.raw < plan.len());
        assert(operations[rest as int] == Some(
            TraversalOperation::Parameter { parameter: TraversalParameter::First },
        ));
        let (before, earlier) = emitter.fields_map(operations, rest, sources, values, plan)->0;
        lemma_fields_map_grow(emitter, operations, rest, sources, values, plan);
        let folded = emitter.parameter_folded(TraversalParameter::First, value, None, before)->0;
        assert(continues(before, folded.plan));
        lemma_fields_map(emitter, operations, rest, sources, values, plan, mapping);
        lemma_element_folded(emitter, TraversalParameter::First, value, None, before);
        lemma_shape_continues(plan, before, value);
        lemma_shape_continues(plan, before, mapping);
        lemma_shapes_continue(before, after, earlier);
        let known = Seq::new(rest, |i: int| apply(shape(plan, mapping), shape(plan, values[i])));
        assert(shapes(before, earlier).len() == known.len());
        assert forall|i: int| 0 <= i < contributions.len() implies (
        #[trigger] contributions[i]).raw < after.len() && shape(after, contributions[i])
            == expected[i] by {
            if i < rest {
                assert(contributions[i] == earlier[i]);
                assert(earlier[i].raw < before.len());
                assert(shapes(after, earlier)[i] == known[i]);
            }
        }
    }
    assert(shapes(after, contributions) =~= expected);
}

} // verus!
