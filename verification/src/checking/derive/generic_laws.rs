//! What derived conversions to and from generic representations do: one takes apart
//! what the other makes.

use super::super::types::{FileId, TypeId};
use super::field::FieldType;
use super::generic::{
    bound_fields, converted_from, converted_to, fields_expression, fields_pattern,
    from_alternative, from_alternatives, products, right_expressions, right_patterns,
    sum_expression, sum_pattern, to_alternative, to_alternatives, variables_applied, variables_of,
    GenericMember, KnownGeneric, Represented,
};
use super::plan::{continues, group_continues, stepped, plain_type, Emission, PlanId, Step};
use super::shapes::{
    alternative, apply, apply_each, bounds, construct, is_alternative, lemma_applied,
    lemma_as_type, lemma_function_by_cases, lemma_pattern, lemma_reference, lemma_shape_continues,
    lemma_shapes_continue, lemma_stepped, shape, shapes, within, Shape,
};
use crate::indexing::items::TermItemId;
use vstd::prelude::*;

verus! {

broadcast use group_continues;

// Representations

/// A value in as many right sides.
pub open spec fn rights(known: KnownGeneric, count: nat, inner: Shape) -> Shape
    decreases count,
{
    if count == 0 {
        inner
    } else {
        apply(
            Shape::Term { resolution: known.in_right },
            rights(known, (count - 1) as nat, inner),
        )
    }
}

/// A value at its position in a sum of as many parts: it is within as many right sides as
/// parts come before it, and it is the left side of what is left, unless it is the last.
pub open spec fn injected(known: KnownGeneric, parts: nat, position: nat, inner: Shape) -> Shape {
    rights(
        known,
        position,
        if position + 1 < parts {
            apply(Shape::Term { resolution: known.in_left }, inner)
        } else {
            inner
        },
    )
}

/// The product of fields.
pub open spec fn product_of(known: KnownGeneric, fields: Seq<Shape>) -> Shape
    decreases fields.len(),
{
    let argument = Shape::Term { resolution: known.argument_value };
    if fields.len() == 0 {
        Shape::Term { resolution: known.no_arguments_value }
    } else if fields.len() == 1 {
        apply(argument, fields[0])
    } else {
        apply(
            apply(
                Shape::Term { resolution: known.product_value },
                apply(argument, fields[0]),
            ),
            product_of(known, fields.skip(1)),
        )
    }
}

/// The representation of a constructor at its position, with its fields.
pub open spec fn representation(
    known: KnownGeneric,
    parts: nat,
    position: nat,
    fields: Seq<Shape>,
) -> Shape {
    injected(
        known,
        parts,
        position,
        apply(Shape::Term { resolution: known.constructor_value }, product_of(known, fields)),
    )
}

// Plans grow

proof fn lemma_right_expressions_grow(
    known: KnownGeneric,
    suffix_types: Seq<TypeId>,
    count: nat,
    body: Emission,
)
    ensures
        continues(body.plan, right_expressions(known, suffix_types, count, body).plan),
    decreases count,
{
    if count > 0 && count <= suffix_types.len() {
        let wrapped = stepped(
            body.plan,
            Step::Reference { resolution: known.in_right },
        ).applied(body.id).as_type(plain_type(suffix_types[count - 1]));
        lemma_right_expressions_grow(known, suffix_types, (count - 1) as nat, wrapped);
        assert(continues(body.plan, wrapped.plan));
    }
}

proof fn lemma_right_patterns_grow(
    known: KnownGeneric,
    suffix_types: Seq<TypeId>,
    count: nat,
    pattern: Emission,
)
    ensures
        continues(pattern.plan, right_patterns(known, suffix_types, count, pattern).plan),
    decreases count,
{
    if count > 0 && count <= suffix_types.len() {
        let wrapped = stepped(
            pattern.plan,
            Step::ConstructorPattern {
                name: "inRight"@,
                type_id: suffix_types[count - 1],
                resolution: known.in_right,
                arguments: seq![pattern.id],
            },
        );
        lemma_right_patterns_grow(known, suffix_types, (count - 1) as nat, wrapped);
        assert(continues(pattern.plan, wrapped.plan));
    }
}

// Sums

proof fn lemma_rights(known: KnownGeneric, count: nat, inner: Shape)
    ensures
        rights(known, count, apply(Shape::Term { resolution: known.in_right }, inner)) == rights(
            known,
            count + 1,
            inner,
        ),
    decreases count,
{
    if count > 0 {
        lemma_rights(known, (count - 1) as nat, inner);
    } else {
        reveal_with_fuel(rights, 2);
    }
}

proof fn lemma_right_expressions(
    known: KnownGeneric,
    suffix_types: Seq<TypeId>,
    count: nat,
    body: Emission,
)
    requires
        count <= suffix_types.len(),
        body.id.raw < body.plan.len(),
        right_expressions(known, suffix_types, count, body).plan.len() <= usize::MAX,
    ensures
        ({
            let made = right_expressions(known, suffix_types, count, body);
            &&& shape(made.plan, made.id) == rights(known, count, shape(body.plan, body.id))
            &&& made.id.raw < made.plan.len()
        }),
    decreases count,
{
    lemma_right_expressions_grow(known, suffix_types, count, body);
    if count > 0 {
        let reference = stepped(body.plan, Step::Reference { resolution: known.in_right });
        let applied = reference.applied(body.id);
        let planned = plain_type(suffix_types[count - 1]);
        let wrapped = applied.as_type(planned);
        lemma_right_expressions_grow(known, suffix_types, (count - 1) as nat, wrapped);
        lemma_reference(body.plan, known.in_right);
        lemma_shape_continues(body.plan, reference.plan, body.id);
        lemma_applied(reference, body.id);
        lemma_as_type(applied, planned);
        lemma_right_expressions(known, suffix_types, (count - 1) as nat, wrapped);
        lemma_rights(known, (count - 1) as nat, shape(body.plan, body.id));
    }
}

proof fn lemma_one_argument(plan: Seq<Step>, resolution: (FileId, TermItemId), id: PlanId)
    ensures
        construct(resolution, shapes(plan, seq![id])) == apply(
            Shape::Term { resolution },
            shape(plan, id),
        ),
{
    let arguments = shapes(plan, seq![id]);
    assert(arguments =~= seq![shape(plan, id)]);
    assert(arguments.drop_last() =~= Seq::empty());
    reveal_with_fuel(apply_each, 2);
}

proof fn lemma_right_patterns(
    known: KnownGeneric,
    suffix_types: Seq<TypeId>,
    count: nat,
    pattern: Emission,
)
    requires
        count <= suffix_types.len(),
        pattern.id.raw < pattern.plan.len(),
        right_patterns(known, suffix_types, count, pattern).plan.len() <= usize::MAX,
    ensures
        ({
            let made = right_patterns(known, suffix_types, count, pattern);
            &&& shape(made.plan, made.id) == rights(known, count, shape(pattern.plan, pattern.id))
            &&& made.id.raw < made.plan.len()
        }),
    decreases count,
{
    lemma_right_patterns_grow(known, suffix_types, count, pattern);
    if count > 0 {
        let type_id = suffix_types[count - 1];
        let wrapped = stepped(
            pattern.plan,
            Step::ConstructorPattern {
                name: "inRight"@,
                type_id,
                resolution: known.in_right,
                arguments: seq![pattern.id],
            },
        );
        lemma_right_patterns_grow(known, suffix_types, (count - 1) as nat, wrapped);
        lemma_pattern(pattern.plan, "inRight"@, type_id, known.in_right, seq![pattern.id]);
        lemma_one_argument(pattern.plan, known.in_right, pattern.id);
        lemma_right_patterns(known, suffix_types, (count - 1) as nat, wrapped);
        lemma_rights(known, (count - 1) as nat, shape(pattern.plan, pattern.id));
    }
}

/// The expression of a constructor within a sum is its representation within as many
/// right sides as constructors come before it, and in the left side of what is left,
/// unless it is the last.
pub proof fn lemma_sum_expression(
    known: KnownGeneric,
    suffix_types: Seq<TypeId>,
    position: nat,
    body: Emission,
)
    requires
        position < suffix_types.len(),
        body.id.raw < body.plan.len(),
        sum_expression(known, suffix_types, position, body).plan.len() <= usize::MAX,
    ensures
        ({
            let made = sum_expression(known, suffix_types, position, body);
            &&& shape(made.plan, made.id) == injected(
                known,
                suffix_types.len(),
                position,
                shape(body.plan, body.id),
            )
            &&& continues(body.plan, made.plan)
            &&& made.id.raw < made.plan.len()
        }),
{
    let made = sum_expression(known, suffix_types, position, body);
    let reference = stepped(body.plan, Step::Reference { resolution: known.in_left });
    let applied = reference.applied(body.id);
    let planned = plain_type(suffix_types[position as int]);
    let left = applied.as_type(planned);
    assert(continues(body.plan, left.plan));
    if position + 1 < suffix_types.len() {
        lemma_right_expressions_grow(known, suffix_types, position, left);
        lemma_reference(body.plan, known.in_left);
        lemma_shape_continues(body.plan, reference.plan, body.id);
        lemma_applied(reference, body.id);
        lemma_as_type(applied, planned);
        lemma_right_expressions(known, suffix_types, position, left);
    } else {
        lemma_right_expressions_grow(known, suffix_types, position, body);
        lemma_right_expressions(known, suffix_types, position, body);
    }
}

/// The pattern of a constructor within a sum matches what the expression of a
/// constructor at the same position is.
pub proof fn lemma_sum_pattern(
    known: KnownGeneric,
    suffix_types: Seq<TypeId>,
    position: nat,
    pattern: Emission,
)
    requires
        position < suffix_types.len(),
        pattern.id.raw < pattern.plan.len(),
        sum_pattern(known, suffix_types, position, pattern).plan.len() <= usize::MAX,
    ensures
        ({
            let made = sum_pattern(known, suffix_types, position, pattern);
            &&& shape(made.plan, made.id) == injected(
                known,
                suffix_types.len(),
                position,
                shape(pattern.plan, pattern.id),
            )
            &&& continues(pattern.plan, made.plan)
            &&& made.id.raw < made.plan.len()
        }),
{
    let type_id = suffix_types[position as int];
    let left = stepped(
        pattern.plan,
        Step::ConstructorPattern {
            name: "inLeft"@,
            type_id,
            resolution: known.in_left,
            arguments: seq![pattern.id],
        },
    );
    assert(continues(pattern.plan, left.plan));
    if position + 1 < suffix_types.len() {
        lemma_right_patterns_grow(known, suffix_types, position, left);
        lemma_pattern(pattern.plan, "inLeft"@, type_id, known.in_left, seq![pattern.id]);
        lemma_one_argument(pattern.plan, known.in_left, pattern.id);
        lemma_right_patterns(known, suffix_types, position, left);
    } else {
        lemma_right_patterns_grow(known, suffix_types, position, pattern);
        lemma_right_patterns(known, suffix_types, position, pattern);
    }
}

// Fields

/// The binders are those of the fields: one for each of them, of its type.
pub open spec fn are_fields(plan: Seq<Step>, binders: Seq<PlanId>, fields: Seq<TypeId>) -> bool {
    &&& binders.len() == fields.len()
    &&& binders.no_duplicates()
    &&& within(plan, binders)
    &&& forall|i: int|
        0 <= i < binders.len() ==> (plan[(#[trigger] binders[i]).raw as int] matches Step::Binder {
            type_id,
            ..
        } && type_id == fields[i])
}

proof fn lemma_bound_fields_grow(plan: Seq<Step>, fields: Seq<TypeId>, count: nat)
    ensures
        continues(plan, bound_fields(plan, fields, count).0),
    decreases count,
{
    if count > 0 && count <= fields.len() {
        lemma_bound_fields_grow(plan, fields, (count - 1) as nat);
        let before = bound_fields(plan, fields, (count - 1) as nat).0;
        assert(continues(before, bound_fields(plan, fields, count).0));
    }
}

proof fn lemma_bound_fields(plan: Seq<Step>, fields: Seq<TypeId>, count: nat)
    requires
        count <= fields.len(),
        bound_fields(plan, fields, count).0.len() <= usize::MAX,
    ensures
        ({
            let (after, binders) = bound_fields(plan, fields, count);
            &&& are_fields(after, binders, fields.take(count as int))
            &&& continues(plan, after)
        }),
    decreases count,
{
    lemma_bound_fields_grow(plan, fields, count);
    let (after, binders) = bound_fields(plan, fields, count);
    if count > 0 {
        let (before, known) = bound_fields(plan, fields, (count - 1) as nat);
        assert(continues(before, after));
        lemma_bound_fields(plan, fields, (count - 1) as nat);
        let taken = fields.take(count as int);
        let shorter = fields.take(count - 1);
        assert forall|i: int| 0 <= i < binders.len() implies (
        #[trigger] binders[i]).raw < after.len() && (after[binders[i].raw as int]
            matches Step::Binder { type_id, .. } && type_id == taken[i]) by {
            if i < known.len() {
                assert(known[i].raw < before.len());
                assert(taken[i] == shorter[i]);
            }
        }
        assert forall|i: int, j: int|
            0 <= i < binders.len() && 0 <= j < binders.len() && i != j implies binders[i]
            != binders[j] by {
            if i < known.len() {
                assert(known[i].raw < before.len());
            }
            if j < known.len() {
                assert(known[j].raw < before.len());
            }
        }
    }
}

/// Binders read as themselves.
proof fn lemma_fields_bound(plan: Seq<Step>, binders: Seq<PlanId>, fields: Seq<TypeId>)
    requires
        are_fields(plan, binders, fields),
    ensures
        shapes(plan, binders) == bounds(binders),
{
    assert forall|i: int| 0 <= i < binders.len() implies shapes(plan, binders)[i] == bounds(
        binders,
    )[i] by {
        assert(plan[binders[i].raw as int] is Binder);
    }
    assert(shapes(plan, binders) =~= bounds(binders));
}

/// The binders stay when steps are added.
proof fn lemma_fields_continue(
    before: Seq<Step>,
    after: Seq<Step>,
    binders: Seq<PlanId>,
    fields: Seq<TypeId>,
)
    requires
        continues(before, after),
        are_fields(before, binders, fields),
    ensures
        are_fields(after, binders, fields),
{
    assert forall|i: int| 0 <= i < binders.len() implies (#[trigger] binders[i]).raw < after.len()
        && after[binders[i].raw as int] == before[binders[i].raw as int] by {
        assert(binders[i].raw < before.len());
    }
}

proof fn lemma_variables_grow(plan: Seq<Step>, binders: Seq<PlanId>, count: nat)
    ensures
        continues(plan, variables_of(plan, binders, count).0),
    decreases count,
{
    if count > 0 && count <= binders.len() {
        lemma_variables_grow(plan, binders, (count - 1) as nat);
        let before = variables_of(plan, binders, (count - 1) as nat).0;
        assert(continues(before, variables_of(plan, binders, count).0));
    }
}

proof fn lemma_variables(plan: Seq<Step>, binders: Seq<PlanId>, count: nat)
    requires
        count <= binders.len(),
        variables_of(plan, binders, count).0.len() <= usize::MAX,
    ensures
        ({
            let (after, values) = variables_of(plan, binders, count);
            &&& within(after, values)
            &&& shapes(after, values) == bounds(binders.take(count as int))
            &&& continues(plan, after)
        }),
    decreases count,
{
    lemma_variables_grow(plan, binders, count);
    let (after, values) = variables_of(plan, binders, count);
    if count > 0 {
        let (before, known) = variables_of(plan, binders, (count - 1) as nat);
        assert(continues(before, after));
        lemma_variables(plan, binders, (count - 1) as nat);
        lemma_shapes_continue(before, after, known);
        assert(values.drop_last() =~= known);
        assert(shapes(before, known).len() == bounds(binders.take(count - 1)).len());
        lemma_stepped(before, Step::Variable { binder: binders[count - 1] });
        assert forall|i: int| 0 <= i < values.len() implies (#[trigger] values[i]).raw
            < after.len() by {
            if i < known.len() {
                assert(known[i].raw < before.len());
            }
        }
        assert forall|i: int| 0 <= i < values.len() implies shapes(after, values)[i] == bounds(
            binders.take(count as int),
        )[i] by {
            if i < known.len() {
                assert(shapes(after, known)[i] == bounds(binders.take(count - 1))[i]);
                assert(values[i] == known[i]);
            }
        }
    }
    assert(shapes(after, values) =~= bounds(binders.take(count as int)));
}

proof fn lemma_products_grow(
    known: KnownGeneric,
    values: Seq<PlanId>,
    count: nat,
    result: Emission,
)
    ensures
        continues(result.plan, products(known, values, count, result).plan),
    decreases count,
{
    if count > 0 && count <= values.len() {
        let argument = stepped(
            result.plan,
            Step::Reference { resolution: known.argument_value },
        ).applied(values[count - 1]);
        let product = stepped(
            argument.plan,
            Step::Reference { resolution: known.product_value },
        ).applied(argument.id).applied(result.id);
        lemma_products_grow(known, values, (count - 1) as nat, product);
        assert(continues(result.plan, product.plan));
    }
}

proof fn lemma_products(
    known: KnownGeneric,
    values: Seq<PlanId>,
    count: nat,
    result: Emission,
    plan: Seq<Step>,
)
    requires
        count < values.len(),
        continues(plan, result.plan),
        within(plan, values),
        result.id.raw < result.plan.len(),
        products(known, values, count, result).plan.len() <= usize::MAX,
        shape(result.plan, result.id) == product_of(
            known,
            shapes(plan, values).skip(count as int),
        ),
    ensures
        ({
            let made = products(known, values, count, result);
            &&& shape(made.plan, made.id) == product_of(known, shapes(plan, values))
            &&& made.id.raw < made.plan.len()
        }),
    decreases count,
{
    let fields = shapes(plan, values);
    lemma_products_grow(known, values, count, result);
    if count == 0 {
        assert(fields.skip(0) =~= fields);
    } else {
        let value = values[count - 1];
        assert(value.raw < plan.len());
        let first = stepped(result.plan, Step::Reference { resolution: known.argument_value });
        let argument = first.applied(value);
        let second = stepped(argument.plan, Step::Reference { resolution: known.product_value });
        let partial = second.applied(argument.id);
        let product = partial.applied(result.id);
        lemma_products_grow(known, values, (count - 1) as nat, product);
        lemma_reference(result.plan, known.argument_value);
        lemma_shape_continues(plan, first.plan, value);
        lemma_applied(first, value);
        lemma_reference(argument.plan, known.product_value);
        lemma_shape_continues(argument.plan, second.plan, argument.id);
        lemma_applied(second, argument.id);
        lemma_shape_continues(result.plan, partial.plan, result.id);
        lemma_applied(partial, result.id);
        let rest = fields.skip(count - 1);
        assert(rest.skip(1) =~= fields.skip(count as int));
        assert(rest[0] == shape(plan, value));
        assert(continues(plan, product.plan));
        lemma_products(known, values, (count - 1) as nat, product, plan);
    }
}

proof fn lemma_fields_expression_grows(known: KnownGeneric, values: Seq<PlanId>, plan: Seq<Step>)
    ensures
        continues(plan, fields_expression(known, values, plan).plan),
{
    if values.len() > 0 {
        let last = stepped(plan, Step::Reference { resolution: known.argument_value }).applied(
            values.last(),
        );
        assert(continues(plan, last.plan));
        lemma_products_grow(known, values, (values.len() - 1) as nat, last);
    }
}

/// The expression of the fields is their product.
pub proof fn lemma_fields_expression(known: KnownGeneric, values: Seq<PlanId>, plan: Seq<Step>)
    requires
        within(plan, values),
        fields_expression(known, values, plan).plan.len() <= usize::MAX,
    ensures
        ({
            let made = fields_expression(known, values, plan);
            &&& shape(made.plan, made.id) == product_of(known, shapes(plan, values))
            &&& continues(plan, made.plan)
            &&& made.id.raw < made.plan.len()
        }),
{
    lemma_fields_expression_grows(known, values, plan);
    if values.len() == 0 {
        lemma_reference(plan, known.no_arguments_value);
    } else {
        let first = stepped(plan, Step::Reference { resolution: known.argument_value });
        let last = first.applied(values.last());
        lemma_products_grow(known, values, (values.len() - 1) as nat, last);
        lemma_reference(plan, known.argument_value);
        assert(values[values.len() - 1].raw < plan.len());
        lemma_shape_continues(plan, first.plan, values.last());
        lemma_applied(first, values.last());
        let fields = shapes(plan, values);
        assert(fields.skip(values.len() - 1) =~= seq![shape(plan, values.last())]);
        lemma_products(known, values, (values.len() - 1) as nat, last, plan);
    }
}

proof fn lemma_two_arguments(
    plan: Seq<Step>,
    resolution: (FileId, TermItemId),
    first: PlanId,
    second: PlanId,
)
    ensures
        construct(resolution, shapes(plan, seq![first, second])) == apply(
            apply(Shape::Term { resolution }, shape(plan, first)),
            shape(plan, second),
        ),
{
    let arguments = shapes(plan, seq![first, second]);
    assert(arguments =~= seq![shape(plan, first), shape(plan, second)]);
    assert(arguments.drop_last() =~= seq![shape(plan, first)]);
    assert(arguments.drop_last().drop_last() =~= Seq::empty());
    reveal_with_fuel(apply_each, 3);
}

proof fn lemma_fields_pattern_grows(
    known: KnownGeneric,
    binders: Seq<PlanId>,
    from: nat,
    representation: FieldType,
    plan: Seq<Step>,
)
    ensures
        fields_pattern(known, binders, from, representation, plan) matches Some(made)
            ==> continues(plan, made.plan),
    decreases binders.len() - from,
{
    if from + 1 < binders.len() {
        if let Some((left, right)) = super::generic::two_arguments(known.product, representation) {
            let argument = stepped(
                plan,
                Step::ConstructorPattern {
                    name: "argument"@,
                    type_id: left.identity(),
                    resolution: known.argument_value,
                    arguments: seq![binders[from as int]],
                },
            );
            assert(continues(plan, argument.plan));
            lemma_fields_pattern_grows(known, binders, from + 1, right, argument.plan);
            if let Some(remaining) = fields_pattern(
                known,
                binders,
                from + 1,
                right,
                argument.plan,
            ) {
                let product = stepped(
                    remaining.plan,
                    Step::ConstructorPattern {
                        name: "product"@,
                        type_id: representation.identity(),
                        resolution: known.product_value,
                        arguments: seq![argument.id, remaining.id],
                    },
                );
                assert(continues(remaining.plan, product.plan));
            }
        }
    }
}

/// The pattern of the fields matches their product.
pub proof fn lemma_fields_pattern(
    known: KnownGeneric,
    binders: Seq<PlanId>,
    from: nat,
    representation: FieldType,
    plan: Seq<Step>,
)
    requires
        from <= binders.len(),
        within(plan, binders),
        fields_pattern(known, binders, from, representation, plan) matches Some(made)
            && made.plan.len() <= usize::MAX,
    ensures
        ({
            let made = fields_pattern(known, binders, from, representation, plan)->0;
            &&& shape(made.plan, made.id) == product_of(
                known,
                shapes(plan, binders).skip(from as int),
            )
            &&& continues(plan, made.plan)
            &&& made.id.raw < made.plan.len()
        }),
    decreases binders.len() - from,
{
    lemma_fields_pattern_grows(known, binders, from, representation, plan);
    let fields = shapes(plan, binders).skip(from as int);
    if from == binders.len() {
        lemma_pattern(
            plan,
            "noArguments"@,
            representation.identity(),
            known.no_arguments_value,
            Seq::empty(),
        );
        assert(shapes(plan, Seq::empty()) =~= Seq::empty());
        assert(fields =~= Seq::empty());
    } else {
        let binder = binders[from as int];
        assert(binder.raw < plan.len());
        assert(fields[0] == shape(plan, binder));
        if from + 1 == binders.len() {
            lemma_pattern(
                plan,
                "argument"@,
                representation.identity(),
                known.argument_value,
                seq![binder],
            );
            lemma_one_argument(plan, known.argument_value, binder);
        } else {
            let (left, right) = super::generic::two_arguments(known.product, representation)->0;
            let argument = stepped(
                plan,
                Step::ConstructorPattern {
                    name: "argument"@,
                    type_id: left.identity(),
                    resolution: known.argument_value,
                    arguments: seq![binder],
                },
            );
            lemma_fields_pattern_grows(known, binders, from + 1, right, argument.plan);
            let remaining = fields_pattern(known, binders, from + 1, right, argument.plan)->0;
            lemma_pattern(
                plan,
                "argument"@,
                left.identity(),
                known.argument_value,
                seq![binder],
            );
            lemma_one_argument(plan, known.argument_value, binder);
            assert forall|i: int| 0 <= i < binders.len() implies (#[trigger] binders[i]).raw
                < argument.plan.len() by {}
            lemma_fields_pattern(known, binders, from + 1, right, argument.plan);
            lemma_shapes_continue(plan, argument.plan, binders);
            assert(fields.skip(1) =~= shapes(argument.plan, binders).skip((from + 1) as int));
            lemma_shape_continues(argument.plan, remaining.plan, argument.id);
            let parts = seq![argument.id, remaining.id];
            assert forall|i: int| 0 <= i < parts.len() implies (#[trigger] parts[i]).raw
                < remaining.plan.len() by {}
            lemma_pattern(
                remaining.plan,
                "product"@,
                representation.identity(),
                known.product_value,
                parts,
            );
            lemma_two_arguments(remaining.plan, known.product_value, argument.id, remaining.id);
        }
    }
}

proof fn lemma_variables_applied_grow(function: Emission, binders: Seq<PlanId>, count: nat)
    ensures
        continues(function.plan, variables_applied(function, binders, count).plan),
    decreases count,
{
    if count > 0 && count <= binders.len() {
        lemma_variables_applied_grow(function, binders, (count - 1) as nat);
        let before = variables_applied(function, binders, (count - 1) as nat);
        assert(continues(before.plan, variables_applied(function, binders, count).plan));
    }
}

/// A constructor applied to the variables of binders.
proof fn lemma_variables_applied(function: Emission, binders: Seq<PlanId>, count: nat)
    requires
        count <= binders.len(),
        function.id.raw < function.plan.len(),
        variables_applied(function, binders, count).plan.len() <= usize::MAX,
    ensures
        ({
            let made = variables_applied(function, binders, count);
            &&& shape(made.plan, made.id) == apply_each(
                shape(function.plan, function.id),
                bounds(binders.take(count as int)),
            )
            &&& continues(function.plan, made.plan)
            &&& made.id.raw < made.plan.len()
        }),
    decreases count,
{
    lemma_variables_applied_grow(function, binders, count);
    if count > 0 {
        let before = variables_applied(function, binders, (count - 1) as nat);
        let step = Step::Variable { binder: binders[count - 1] };
        let value = stepped(before.plan, step);
        lemma_variables_applied_grow(function, binders, (count - 1) as nat);
        assert(continues(before.plan, variables_applied(function, binders, count).plan));
        lemma_variables_applied(function, binders, (count - 1) as nat);
        lemma_stepped(before.plan, step);
        lemma_shape_continues(before.plan, value.plan, before.id);
        lemma_applied(Emission { plan: value.plan, id: before.id }, value.id);
        let all = bounds(binders.take(count as int));
        assert(all.drop_last() =~= bounds(binders.take(count - 1)));
        assert(all.last() == (Shape::Bound { binder: binders[count - 1] }));
    } else {
        assert(bounds(binders.take(0)) =~= Seq::empty());
    }
}

// Alternatives

/// The alternative makes the representation of a constructor out of its fields.
pub open spec fn makes_representation(
    plan: Seq<Step>,
    id: PlanId,
    known: KnownGeneric,
    constructor: Represented,
    parts: nat,
    position: nat,
) -> bool {
    exists|binders: Seq<PlanId>, pattern: PlanId, body: PlanId|
        {
            &&& #[trigger] are_fields(plan, binders, constructor.shape.fields@)
            &&& #[trigger] is_alternative(plan, id, pattern, body)
            &&& shape(plan, pattern) == construct(constructor.shape.resolution, bounds(binders))
            &&& shape(plan, body) == representation(known, parts, position, bounds(binders))
        }
}

/// The alternative makes a constructor out of the fields of its representation.
pub open spec fn makes_constructor(
    plan: Seq<Step>,
    id: PlanId,
    known: KnownGeneric,
    constructor: Represented,
    parts: nat,
    position: nat,
) -> bool {
    exists|binders: Seq<PlanId>, pattern: PlanId, body: PlanId|
        {
            &&& #[trigger] are_fields(plan, binders, constructor.shape.fields@)
            &&& #[trigger] is_alternative(plan, id, pattern, body)
            &&& shape(plan, pattern) == representation(known, parts, position, bounds(binders))
            &&& shape(plan, body) == construct(constructor.shape.resolution, bounds(binders))
        }
}

proof fn lemma_from_alternative_grows(
    known: KnownGeneric,
    derived_type: TypeId,
    suffix_types: Seq<TypeId>,
    constructor: Represented,
    position: nat,
    result_type: TypeId,
    plan: Seq<Step>,
)
    ensures
        continues(
            plan,
            from_alternative(
                known,
                derived_type,
                suffix_types,
                constructor,
                position,
                result_type,
                plan,
            ).plan,
        ),
{
    let fields = constructor.shape.fields@;
    let (bound, binders) = bound_fields(plan, fields, fields.len());
    lemma_bound_fields_grow(plan, fields, fields.len());
    let pattern = stepped(
        bound,
        Step::ConstructorPattern {
            name: "constructor"@,
            type_id: derived_type,
            resolution: constructor.shape.resolution,
            arguments: binders,
        },
    );
    assert(continues(bound, pattern.plan));
    let (valued, values) = variables_of(pattern.plan, binders, binders.len());
    lemma_variables_grow(pattern.plan, binders, binders.len());
    let product = fields_expression(known, values, valued);
    lemma_fields_expression_grows(known, values, valued);
    let own = stepped(
        product.plan,
        Step::Reference { resolution: known.constructor_value },
    ).applied(product.id).as_type(plain_type(constructor.representation.identity()));
    assert(continues(product.plan, own.plan));
    let left = stepped(own.plan, Step::Reference { resolution: known.in_left }).applied(
        own.id,
    ).as_type(plain_type(suffix_types[position as int]));
    assert(continues(own.plan, left.plan));
    lemma_right_expressions_grow(known, suffix_types, position, left);
    lemma_right_expressions_grow(known, suffix_types, position, own);
    let body = sum_expression(known, suffix_types, position, own);
    assert(continues(own.plan, body.plan));
    let typed = body.as_type(plain_type(result_type));
    assert(continues(body.plan, typed.plan));
}

proof fn lemma_from_alternative(
    known: KnownGeneric,
    derived_type: TypeId,
    suffix_types: Seq<TypeId>,
    constructor: Represented,
    position: nat,
    result_type: TypeId,
    plan: Seq<Step>,
)
    requires
        position < suffix_types.len(),
        from_alternative(
            known,
            derived_type,
            suffix_types,
            constructor,
            position,
            result_type,
            plan,
        ).plan.len() <= usize::MAX,
    ensures
        ({
            let made = from_alternative(
                known,
                derived_type,
                suffix_types,
                constructor,
                position,
                result_type,
                plan,
            );
            makes_representation(
                made.plan,
                made.id,
                known,
                constructor,
                suffix_types.len(),
                position,
            )
        }),
{
    let fields = constructor.shape.fields@;
    let resolution = constructor.shape.resolution;
    let (bound, binders) = bound_fields(plan, fields, fields.len());
    lemma_bound_fields_grow(plan, fields, fields.len());
    let pattern = stepped(
        bound,
        Step::ConstructorPattern {
            name: "constructor"@,
            type_id: derived_type,
            resolution,
            arguments: binders,
        },
    );
    assert(continues(bound, pattern.plan));
    let (valued, values) = variables_of(pattern.plan, binders, binders.len());
    lemma_variables_grow(pattern.plan, binders, binders.len());
    let product = fields_expression(known, values, valued);
    lemma_fields_expression_grows(known, values, valued);
    let reference = stepped(product.plan, Step::Reference { resolution: known.constructor_value });
    let applied = reference.applied(product.id);
    let planned = plain_type(constructor.representation.identity());
    let own = applied.as_type(planned);
    assert(continues(product.plan, own.plan));
    let left = stepped(own.plan, Step::Reference { resolution: known.in_left }).applied(
        own.id,
    ).as_type(plain_type(suffix_types[position as int]));
    assert(continues(own.plan, left.plan));
    lemma_right_expressions_grow(known, suffix_types, position, left);
    lemma_right_expressions_grow(known, suffix_types, position, own);
    let body = sum_expression(known, suffix_types, position, own);
    assert(continues(own.plan, body.plan));
    let typed = body.as_type(plain_type(result_type));
    let made = stepped(
        typed.plan,
        Step::Alternative { pattern: pattern.id, body: typed.id },
    );
    // What each part is.
    lemma_bound_fields(plan, fields, fields.len());
    assert(fields.take(fields.len() as int) =~= fields);
    lemma_fields_bound(bound, binders, fields);
    lemma_pattern(bound, "constructor"@, derived_type, resolution, binders);
    lemma_variables(pattern.plan, binders, binders.len());
    assert(binders.take(binders.len() as int) =~= binders);
    lemma_fields_expression(known, values, valued);
    lemma_reference(product.plan, known.constructor_value);
    lemma_shape_continues(product.plan, reference.plan, product.id);
    lemma_applied(reference, product.id);
    lemma_as_type(applied, planned);
    lemma_sum_expression(known, suffix_types, position, own);
    lemma_as_type(body, plain_type(result_type));
    lemma_stepped(typed.plan, Step::Alternative { pattern: pattern.id, body: typed.id });
    assert(continues(pattern.plan, made.plan));
    lemma_shape_continues(pattern.plan, made.plan, pattern.id);
    lemma_shape_continues(typed.plan, made.plan, typed.id);
    lemma_fields_continue(bound, made.plan, binders, fields);
    assert(is_alternative(made.plan, made.id, pattern.id, typed.id));
    assert(are_fields(made.plan, binders, constructor.shape.fields@));
}

proof fn lemma_to_alternative_grows(
    known: KnownGeneric,
    suffix_types: Seq<TypeId>,
    constructor: Represented,
    position: nat,
    result_type: TypeId,
    plan: Seq<Step>,
)
    ensures
        to_alternative(known, suffix_types, constructor, position, result_type, plan)
            matches Some(made) ==> continues(plan, made.plan),
{
    let fields = constructor.shape.fields@;
    let (bound, binders) = bound_fields(plan, fields, fields.len());
    lemma_bound_fields_grow(plan, fields, fields.len());
    lemma_fields_pattern_grows(known, binders, 0, constructor.fields_representation, bound);
    if let Some(inner) = fields_pattern(
        known,
        binders,
        0,
        constructor.fields_representation,
        bound,
    ) {
        let own = stepped(
            inner.plan,
            Step::ConstructorPattern {
                name: "constructor"@,
                type_id: constructor.representation.identity(),
                resolution: known.constructor_value,
                arguments: seq![inner.id],
            },
        );
        assert(continues(inner.plan, own.plan));
        let left = stepped(
            own.plan,
            Step::ConstructorPattern {
                name: "inLeft"@,
                type_id: suffix_types[position as int],
                resolution: known.in_left,
                arguments: seq![own.id],
            },
        );
        assert(continues(own.plan, left.plan));
        lemma_right_patterns_grow(known, suffix_types, position, left);
        lemma_right_patterns_grow(known, suffix_types, position, own);
        let pattern = sum_pattern(known, suffix_types, position, own);
        assert(continues(own.plan, pattern.plan));
        let reference = stepped(
            pattern.plan,
            Step::Reference { resolution: constructor.shape.resolution },
        );
        assert(continues(pattern.plan, reference.plan));
        lemma_variables_applied_grow(reference, binders, binders.len());
        let applied = variables_applied(reference, binders, binders.len());
        let body = applied.as_type(plain_type(result_type));
        assert(continues(applied.plan, body.plan));
    }
}

proof fn lemma_to_alternative(
    known: KnownGeneric,
    suffix_types: Seq<TypeId>,
    constructor: Represented,
    position: nat,
    result_type: TypeId,
    plan: Seq<Step>,
)
    requires
        position < suffix_types.len(),
        to_alternative(known, suffix_types, constructor, position, result_type, plan)
            matches Some(made) && made.plan.len() <= usize::MAX,
    ensures
        ({
            let made = to_alternative(
                known,
                suffix_types,
                constructor,
                position,
                result_type,
                plan,
            )->0;
            makes_constructor(
                made.plan,
                made.id,
                known,
                constructor,
                suffix_types.len(),
                position,
            )
        }),
{
    let fields = constructor.shape.fields@;
    let resolution = constructor.shape.resolution;
    let (bound, binders) = bound_fields(plan, fields, fields.len());
    lemma_bound_fields_grow(plan, fields, fields.len());
    lemma_fields_pattern_grows(known, binders, 0, constructor.fields_representation, bound);
    let inner = fields_pattern(known, binders, 0, constructor.fields_representation, bound)->0;
    let type_id = constructor.representation.identity();
    let own = stepped(
        inner.plan,
        Step::ConstructorPattern {
            name: "constructor"@,
            type_id,
            resolution: known.constructor_value,
            arguments: seq![inner.id],
        },
    );
    assert(continues(inner.plan, own.plan));
    let left = stepped(
        own.plan,
        Step::ConstructorPattern {
            name: "inLeft"@,
            type_id: suffix_types[position as int],
            resolution: known.in_left,
            arguments: seq![own.id],
        },
    );
    assert(continues(own.plan, left.plan));
    lemma_right_patterns_grow(known, suffix_types, position, left);
    lemma_right_patterns_grow(known, suffix_types, position, own);
    let pattern = sum_pattern(known, suffix_types, position, own);
    assert(continues(own.plan, pattern.plan));
    let reference = stepped(pattern.plan, Step::Reference { resolution });
    assert(continues(pattern.plan, reference.plan));
    lemma_variables_applied_grow(reference, binders, binders.len());
    let applied = variables_applied(reference, binders, binders.len());
    let body = applied.as_type(plain_type(result_type));
    let made = stepped(body.plan, Step::Alternative { pattern: pattern.id, body: body.id });
    assert(continues(applied.plan, made.plan));
    // What each part is.
    lemma_bound_fields(plan, fields, fields.len());
    assert(fields.take(fields.len() as int) =~= fields);
    lemma_fields_bound(bound, binders, fields);
    lemma_fields_pattern(known, binders, 0, constructor.fields_representation, bound);
    assert(bounds(binders).skip(0) =~= bounds(binders));
    lemma_pattern(
        inner.plan,
        "constructor"@,
        type_id,
        known.constructor_value,
        seq![inner.id],
    );
    lemma_one_argument(inner.plan, known.constructor_value, inner.id);
    lemma_sum_pattern(known, suffix_types, position, own);
    lemma_reference(pattern.plan, resolution);
    lemma_variables_applied(reference, binders, binders.len());
    assert(binders.take(binders.len() as int) =~= binders);
    lemma_as_type(applied, plain_type(result_type));
    lemma_stepped(body.plan, Step::Alternative { pattern: pattern.id, body: body.id });
    lemma_shape_continues(pattern.plan, made.plan, pattern.id);
    lemma_shape_continues(body.plan, made.plan, body.id);
    assert(continues(bound, made.plan));
    lemma_fields_continue(bound, made.plan, binders, fields);
    assert(is_alternative(made.plan, made.id, pattern.id, body.id));
    assert(are_fields(made.plan, binders, constructor.shape.fields@));
}

proof fn lemma_representation_continues(
    before: Seq<Step>,
    after: Seq<Step>,
    id: PlanId,
    known: KnownGeneric,
    constructor: Represented,
    parts: nat,
    position: nat,
)
    requires
        continues(before, after),
    ensures
        makes_representation(before, id, known, constructor, parts, position)
            ==> makes_representation(after, id, known, constructor, parts, position),
        makes_constructor(before, id, known, constructor, parts, position) ==> makes_constructor(
            after,
            id,
            known,
            constructor,
            parts,
            position,
        ),
{
    let fields = constructor.shape.fields@;
    let resolution = constructor.shape.resolution;
    if makes_representation(before, id, known, constructor, parts, position) {
        let (binders, pattern, body) = choose|
            binders: Seq<PlanId>,
            pattern: PlanId,
            body: PlanId,
        |
            {
                &&& #[trigger] are_fields(before, binders, fields)
                &&& #[trigger] is_alternative(before, id, pattern, body)
                &&& shape(before, pattern) == construct(resolution, bounds(binders))
                &&& shape(before, body) == representation(known, parts, position, bounds(binders))
            };
        lemma_fields_continue(before, after, binders, fields);
        lemma_shape_continues(before, after, pattern);
        lemma_shape_continues(before, after, body);
        assert(is_alternative(after, id, pattern, body));
        assert(are_fields(after, binders, fields));
    }
    if makes_constructor(before, id, known, constructor, parts, position) {
        let (binders, pattern, body) = choose|
            binders: Seq<PlanId>,
            pattern: PlanId,
            body: PlanId,
        |
            {
                &&& #[trigger] are_fields(before, binders, fields)
                &&& #[trigger] is_alternative(before, id, pattern, body)
                &&& shape(before, pattern) == representation(
                    known,
                    parts,
                    position,
                    bounds(binders),
                )
                &&& shape(before, body) == construct(resolution, bounds(binders))
            };
        lemma_fields_continue(before, after, binders, fields);
        lemma_shape_continues(before, after, pattern);
        lemma_shape_continues(before, after, body);
        assert(is_alternative(after, id, pattern, body));
        assert(are_fields(after, binders, fields));
    }
}

// Members

proof fn lemma_from_alternatives_grow(
    known: KnownGeneric,
    derived_type: TypeId,
    suffix_types: Seq<TypeId>,
    constructors: Seq<Represented>,
    count: nat,
    result_type: TypeId,
    plan: Seq<Step>,
)
    ensures
        continues(
            plan,
            from_alternatives(
                known,
                derived_type,
                suffix_types,
                constructors,
                count,
                result_type,
                plan,
            ).0,
        ),
    decreases count,
{
    if count > 0 && count <= constructors.len() {
        lemma_from_alternatives_grow(
            known,
            derived_type,
            suffix_types,
            constructors,
            (count - 1) as nat,
            result_type,
            plan,
        );
        let (before, _) = from_alternatives(
            known,
            derived_type,
            suffix_types,
            constructors,
            (count - 1) as nat,
            result_type,
            plan,
        );
        lemma_from_alternative_grows(
            known,
            derived_type,
            suffix_types,
            constructors[count - 1],
            (count - 1) as nat,
            result_type,
            before,
        );
    }
}

proof fn lemma_from_alternatives(
    known: KnownGeneric,
    derived_type: TypeId,
    suffix_types: Seq<TypeId>,
    constructors: Seq<Represented>,
    count: nat,
    result_type: TypeId,
    plan: Seq<Step>,
)
    requires
        count <= constructors.len(),
        suffix_types.len() == constructors.len(),
        from_alternatives(
            known,
            derived_type,
            suffix_types,
            constructors,
            count,
            result_type,
            plan,
        ).0.len() <= usize::MAX,
    ensures
        ({
            let (after, alternatives) = from_alternatives(
                known,
                derived_type,
                suffix_types,
                constructors,
                count,
                result_type,
                plan,
            );
            &&& alternatives.len() == count
            &&& forall|i: int|
                0 <= i < count ==> makes_representation(
                    after,
                    #[trigger] alternatives[i],
                    known,
                    constructors[i],
                    constructors.len(),
                    i as nat,
                )
        }),
    decreases count,
{
    if count > 0 {
        let last = (count - 1) as nat;
        let (before, earlier) = from_alternatives(
            known,
            derived_type,
            suffix_types,
            constructors,
            last,
            result_type,
            plan,
        );
        let (after, alternatives) = from_alternatives(
            known,
            derived_type,
            suffix_types,
            constructors,
            count,
            result_type,
            plan,
        );
        lemma_from_alternative_grows(
            known,
            derived_type,
            suffix_types,
            constructors[count - 1],
            last,
            result_type,
            before,
        );
        lemma_from_alternatives(
            known,
            derived_type,
            suffix_types,
            constructors,
            last,
            result_type,
            plan,
        );
        lemma_from_alternative(
            known,
            derived_type,
            suffix_types,
            constructors[count - 1],
            last,
            result_type,
            before,
        );
        assert forall|i: int| 0 <= i < count implies makes_representation(
            after,
            #[trigger] alternatives[i],
            known,
            constructors[i],
            constructors.len(),
            i as nat,
        ) by {
            if i < last {
                assert(alternatives[i] == earlier[i]);
                lemma_representation_continues(
                    before,
                    after,
                    earlier[i],
                    known,
                    constructors[i],
                    constructors.len(),
                    i as nat,
                );
            }
        }
    }
}

proof fn lemma_to_alternatives(
    known: KnownGeneric,
    suffix_types: Seq<TypeId>,
    constructors: Seq<Represented>,
    count: nat,
    result_type: TypeId,
    plan: Seq<Step>,
)
    requires
        count <= constructors.len(),
        suffix_types.len() == constructors.len(),
        to_alternatives(known, suffix_types, constructors, count, result_type, plan)
            matches Some(made) && made.0.len() <= usize::MAX,
    ensures
        ({
            let (after, alternatives) = to_alternatives(
                known,
                suffix_types,
                constructors,
                count,
                result_type,
                plan,
            )->0;
            &&& alternatives.len() == count
            &&& continues(plan, after)
            &&& forall|i: int|
                0 <= i < count ==> makes_constructor(
                    after,
                    #[trigger] alternatives[i],
                    known,
                    constructors[i],
                    constructors.len(),
                    i as nat,
                )
        }),
    decreases count,
{
    if count > 0 {
        let last = (count - 1) as nat;
        let (before, earlier) = to_alternatives(
            known,
            suffix_types,
            constructors,
            last,
            result_type,
            plan,
        )->0;
        let (after, alternatives) = to_alternatives(
            known,
            suffix_types,
            constructors,
            count,
            result_type,
            plan,
        )->0;
        lemma_to_alternative_grows(
            known,
            suffix_types,
            constructors[count - 1],
            last,
            result_type,
            before,
        );
        lemma_to_alternatives(known, suffix_types, constructors, last, result_type, plan);
        lemma_to_alternative(
            known,
            suffix_types,
            constructors[count - 1],
            last,
            result_type,
            before,
        );
        assert forall|i: int| 0 <= i < count implies makes_constructor(
            after,
            #[trigger] alternatives[i],
            known,
            constructors[i],
            constructors.len(),
            i as nat,
        ) by {
            if i < last {
                assert(alternatives[i] == earlier[i]);
                lemma_representation_continues(
                    before,
                    after,
                    earlier[i],
                    known,
                    constructors[i],
                    constructors.len(),
                    i as nat,
                );
            }
        }
    }
}

/// The fields are bound once each.
pub open spec fn are_bound(fields: Seq<Shape>, count: nat) -> bool {
    exists|ids: Seq<PlanId>| #[trigger] bounds(ids) == fields && ids.no_duplicates() && ids.len() == count
}

/// One shape is a constructor with its fields, and the other one the representation of
/// a constructor at that position with the same fields.
pub open spec fn represents(
    known: KnownGeneric,
    constructors: Seq<Represented>,
    position: int,
    constructor: Shape,
    represented: Shape,
) -> bool {
    exists|fields: Seq<Shape>|
        {
            &&& #[trigger] are_bound(fields, constructors[position].shape.fields@.len())
            &&& constructor == construct(constructors[position].shape.resolution, fields)
            &&& represented == representation(
                known,
                constructors.len(),
                position as nat,
                fields,
            )
        }
}

/// A function that takes a value apart: the patterns and bodies of its alternatives.
pub open spec fn is_by_cases(function: Shape, patterns: Seq<Shape>, bodies: Seq<Shape>) -> bool {
    exists|value: PlanId|
        function == (Shape::Function {
            binders: seq![#[trigger] bound(value)],
            body: Box::new(
                Shape::Cases { scrutinee: Box::new(bound(value)), patterns, bodies },
            ),
        })
}

/// The variable of a binder.
pub open spec fn bound(binder: PlanId) -> Shape {
    Shape::Bound { binder }
}

/// The conversion to the representation has one alternative for each constructor, in
/// order: it takes the fields of the constructor and makes the representation of a
/// constructor at that position out of them.
pub proof fn lemma_from_represents(
    known: KnownGeneric,
    derived_type: TypeId,
    suffix_types: Seq<TypeId>,
    constructors: Seq<Represented>,
    member: GenericMember,
    plan: Seq<Step>,
) -> (cases: (Seq<Shape>, Seq<Shape>))
    requires
        constructors.len() > 0,
        suffix_types.len() == constructors.len(),
        converted_from(known, derived_type, suffix_types, constructors, member, plan).plan.len()
            <= usize::MAX,
    ensures
        ({
            let made = converted_from(
                known,
                derived_type,
                suffix_types,
                constructors,
                member,
                plan,
            );
            let (patterns, bodies) = cases;
            &&& is_by_cases(shape(made.plan, made.id), patterns, bodies)
            &&& patterns.len() == constructors.len()
            &&& bodies.len() == constructors.len()
            &&& forall|i: int|
                0 <= i < constructors.len() ==> #[trigger] represents(
                    known,
                    constructors,
                    i,
                    patterns[i],
                    bodies[i],
                )
        }),
{
    let first = Step::Binder { name: "value"@, type_id: member.argument_type };
    let value = stepped(plan, first);
    let second = Step::Variable { binder: value.id };
    let scrutinee = stepped(value.plan, second);
    let (after, alternatives) = from_alternatives(
        known,
        derived_type,
        suffix_types,
        constructors,
        constructors.len(),
        member.result_type,
        scrutinee.plan,
    );
    let made = converted_from(known, derived_type, suffix_types, constructors, member, plan);
    assert(made.plan.len() == after.len() + 2);
    lemma_from_alternatives_grow(
        known,
        derived_type,
        suffix_types,
        constructors,
        constructors.len(),
        member.result_type,
        scrutinee.plan,
    );
    lemma_stepped(plan, first);
    lemma_stepped(value.plan, second);
    lemma_from_alternatives(
        known,
        derived_type,
        suffix_types,
        constructors,
        constructors.len(),
        member.result_type,
        scrutinee.plan,
    );
    lemma_shape_continues(scrutinee.plan, after, value.id);
    lemma_shape_continues(scrutinee.plan, after, scrutinee.id);
    assert forall|i: int| 0 <= i < alternatives.len() implies (alternative(
        after,
        #[trigger] alternatives[i],
    ) matches Some((pattern, body)) && is_alternative(after, alternatives[i], pattern, body)) by {
        assert(makes_representation(
            after,
            alternatives[i],
            known,
            constructors[i],
            constructors.len(),
            i as nat,
        ));
    }
    lemma_function_by_cases(
        after,
        value.id,
        scrutinee.id,
        alternatives,
        member.result_type,
        plain_type(member.implementation_type),
    );
    let cases = cases_of(shape(made.plan, made.id));
    let (patterns, bodies) = cases;
    assert(shape(after, value.id) == bound(value.id));
    assert(shape(after, scrutinee.id) == bound(value.id));
    assert(shape(made.plan, made.id) == (Shape::Function {
        binders: seq![bound(value.id)],
        body: Box::new(
            Shape::Cases { scrutinee: Box::new(bound(value.id)), patterns, bodies },
        ),
    }));
    assert forall|i: int| 0 <= i < constructors.len() implies #[trigger] represents(
        known,
        constructors,
        i,
        patterns[i],
        bodies[i],
    ) by {
        let constructor = constructors[i];
        assert(makes_representation(
            after,
            alternatives[i],
            known,
            constructor,
            constructors.len(),
            i as nat,
        ));
        let (binders, pattern, body) = choose|
            binders: Seq<PlanId>,
            pattern: PlanId,
            body: PlanId,
        |
            {
                &&& #[trigger] are_fields(after, binders, constructor.shape.fields@)
                &&& #[trigger] is_alternative(after, alternatives[i], pattern, body)
                &&& shape(after, pattern) == construct(
                    constructor.shape.resolution,
                    bounds(binders),
                )
                &&& shape(after, body) == representation(
                    known,
                    constructors.len(),
                    i as nat,
                    bounds(binders),
                )
            };
        let fields = bounds(binders);
        assert(are_bound(fields, constructor.shape.fields@.len()));
        assert(alternative(after, alternatives[i]) == Some((pattern, body)));
    }
    cases
}

/// The patterns and bodies of a function by cases.
pub open spec fn cases_of(function: Shape) -> (Seq<Shape>, Seq<Shape>) {
    match function {
        Shape::Function { body, .. } => match *body {
            Shape::Cases { patterns, bodies, .. } => (patterns, bodies),
            _ => (Seq::empty(), Seq::empty()),
        },
        _ => (Seq::empty(), Seq::empty()),
    }
}

/// The conversion from the representation has one alternative for each constructor, in
/// order: it matches the representation of a constructor at that position and makes the
/// constructor out of its fields.
pub proof fn lemma_to_constructs(
    known: KnownGeneric,
    suffix_types: Seq<TypeId>,
    constructors: Seq<Represented>,
    member: GenericMember,
    plan: Seq<Step>,
) -> (cases: (Seq<Shape>, Seq<Shape>))
    requires
        constructors.len() > 0,
        suffix_types.len() == constructors.len(),
        converted_to(known, suffix_types, constructors, member, plan) matches Some(made)
            && made.plan.len() <= usize::MAX,
    ensures
        ({
            let made = converted_to(known, suffix_types, constructors, member, plan)->0;
            let (patterns, bodies) = cases;
            &&& is_by_cases(shape(made.plan, made.id), patterns, bodies)
            &&& patterns.len() == constructors.len()
            &&& bodies.len() == constructors.len()
            &&& forall|i: int|
                0 <= i < constructors.len() ==> #[trigger] represents(
                    known,
                    constructors,
                    i,
                    bodies[i],
                    patterns[i],
                )
        }),
{
    let first = Step::Binder { name: "representation"@, type_id: member.argument_type };
    let value = stepped(plan, first);
    let second = Step::Variable { binder: value.id };
    let scrutinee = stepped(value.plan, second);
    let (after, alternatives) = to_alternatives(
        known,
        suffix_types,
        constructors,
        constructors.len(),
        member.result_type,
        scrutinee.plan,
    )->0;
    let made = converted_to(known, suffix_types, constructors, member, plan)->0;
    assert(made.plan.len() == after.len() + 2);
    lemma_to_alternatives(
        known,
        suffix_types,
        constructors,
        constructors.len(),
        member.result_type,
        scrutinee.plan,
    );
    lemma_stepped(plan, first);
    lemma_stepped(value.plan, second);
    lemma_shape_continues(scrutinee.plan, after, value.id);
    lemma_shape_continues(scrutinee.plan, after, scrutinee.id);
    assert forall|i: int| 0 <= i < alternatives.len() implies (alternative(
        after,
        #[trigger] alternatives[i],
    ) matches Some((pattern, body)) && is_alternative(after, alternatives[i], pattern, body)) by {
        assert(makes_constructor(
            after,
            alternatives[i],
            known,
            constructors[i],
            constructors.len(),
            i as nat,
        ));
    }
    lemma_function_by_cases(
        after,
        value.id,
        scrutinee.id,
        alternatives,
        member.result_type,
        plain_type(member.implementation_type),
    );
    let cases = cases_of(shape(made.plan, made.id));
    let (patterns, bodies) = cases;
    assert(shape(after, value.id) == bound(value.id));
    assert(shape(after, scrutinee.id) == bound(value.id));
    assert(shape(made.plan, made.id) == (Shape::Function {
        binders: seq![bound(value.id)],
        body: Box::new(
            Shape::Cases { scrutinee: Box::new(bound(value.id)), patterns, bodies },
        ),
    }));
    assert forall|i: int| 0 <= i < constructors.len() implies #[trigger] represents(
        known,
        constructors,
        i,
        bodies[i],
        patterns[i],
    ) by {
        let constructor = constructors[i];
        assert(makes_constructor(
            after,
            alternatives[i],
            known,
            constructor,
            constructors.len(),
            i as nat,
        ));
        let (binders, pattern, body) = choose|
            binders: Seq<PlanId>,
            pattern: PlanId,
            body: PlanId,
        |
            {
                &&& #[trigger] are_fields(after, binders, constructor.shape.fields@)
                &&& #[trigger] is_alternative(after, alternatives[i], pattern, body)
                &&& shape(after, pattern) == representation(
                    known,
                    constructors.len(),
                    i as nat,
                    bounds(binders),
                )
                &&& shape(after, body) == construct(
                    constructor.shape.resolution,
                    bounds(binders),
                )
            };
        let fields = bounds(binders);
        assert(are_bound(fields, constructor.shape.fields@.len()));
        assert(alternative(after, alternatives[i]) == Some((pattern, body)));
    }
    cases
}

} // verus!
