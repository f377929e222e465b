//! What derived traversals do: they perform the effects of what they traverse in order
//! and put what these yield in its place.

use super::super::types::{FileId, TypeId};
use super::field::FieldType;
use super::foldable::made;
use super::mapped::{lambda_of, variable_of};
use super::plan::{
    arrow_type, continues, group_continues, plain_type, stepped, Emission, KnownTerms, PlanId,
    PlannedType, Step,
};
use super::shapes::{
    apply, function_of, lemma_applied, lemma_as_type, lemma_function, lemma_reference,
    lemma_shape_continues, lemma_stepped, shape, shapes, within, Shape,
};
use super::traversable::{
    identities_applied, member_kind, result_binders, result_types, sequenced,
    EffectTraversalEmitter, MemberKind, TraversalKind, TraversedField,
};
use super::variance::{TraversalOperation, TraversalParameter};
use crate::indexing::items::TermItemId;
use vstd::prelude::*;

verus! {

broadcast use group_continues;

/// A term that is known.
pub open spec fn known_term(term: Option<(FileId, TermItemId)>) -> Shape {
    Shape::Term { resolution: term->0 }
}

/// The effect of an element of a parameter's type is what the parameter's own function
/// gives for it.
pub proof fn lemma_element_effected(
    emitter: EffectTraversalEmitter,
    parameter: TraversalParameter,
    value: PlanId,
    source: FieldType,
    target: FieldType,
    plan: Seq<Step>,
)
    requires
        emitter.effected(
            TraversalOperation::Parameter { parameter },
            value,
            source,
            target,
            plan,
        ) matches Some(effect) && effect.plan.len() <= usize::MAX,
        value.raw < plan.len(),
        emitter.mapping_expressions.of(parameter) matches Some(mapping) ==> mapping.raw
            < plan.len(),
    ensures
        ({
            let effect = emitter.effected(
                TraversalOperation::Parameter { parameter },
                value,
                source,
                target,
                plan,
            )->0;
            &&& emitter.mapping_expressions.of(parameter) is Some
            &&& shape(effect.plan, effect.id) == apply(
                shape(plan, emitter.mapping_expressions.of(parameter)->0),
                shape(plan, value),
            )
            &&& continues(plan, effect.plan)
            &&& effect.id.raw < effect.plan.len()
        }),
{
    let mapping = emitter.mapping_expressions.of(parameter)->0;
    let applied = made(plan, mapping).applied(value);
    lemma_applied(made(plan, mapping), value);
    lemma_as_type(applied, emitter.effectful(target.identity()));
}

/// A value without an effect is `pure` of the value.
pub proof fn lemma_pure(emitter: EffectTraversalEmitter, value: Emission, target: TypeId)
    requires
        value.id.raw < value.plan.len(),
        emitter.pure(value, target) matches Some(effect) && effect.plan.len() <= usize::MAX,
    ensures
        ({
            let effect = emitter.pure(value, target)->0;
            &&& shape(effect.plan, effect.id) == apply(
                known_term(emitter.known.pure),
                shape(value.plan, value.id),
            )
            &&& continues(value.plan, effect.plan)
            &&& effect.id.raw < effect.plan.len()
        }),
{
    let resolution = emitter.known.pure->0;
    let reference = stepped(value.plan, Step::Reference { resolution });
    lemma_reference(value.plan, resolution);
    lemma_shape_continues(value.plan, reference.plan, value.id);
    lemma_applied(reference, value.id);
    lemma_as_type(reference.applied(value.id), emitter.effectful(target));
}

/// A function for what is not traversed yields its argument without an effect.
pub proof fn lemma_pure_transformer(
    emitter: EffectTraversalEmitter,
    source: FieldType,
    target: FieldType,
    plan: Seq<Step>,
)
    requires
        emitter.pure_transformer(source, target, plan) matches Some(function)
            && function.plan.len() <= usize::MAX,
    ensures
        ({
            let function = emitter.pure_transformer(source, target, plan)->0;
            exists|binder: PlanId|
                shape(function.plan, function.id) == #[trigger] lambda_of(
                    binder,
                    apply(known_term(emitter.known.pure), variable_of(binder)),
                )
        }),
{
    let first = Step::Binder { name: "unchanged"@, type_id: source.identity() };
    let input = stepped(plan, first);
    let second = Step::Variable { binder: input.id };
    let variable = stepped(input.plan, second);
    let value = variable.as_type(plain_type(target.identity()));
    let body = emitter.pure(value, target.identity())->0;
    lemma_stepped(plan, first);
    lemma_stepped(input.plan, second);
    lemma_as_type(variable, plain_type(target.identity()));
    lemma_pure(emitter, value, target.identity());
    lemma_shape_continues(input.plan, body.plan, input.id);
    lemma_function(
        body.plan,
        emitter.transformer_type(source.identity(), target.identity()),
        seq![input.id],
        body.id,
    );
    assert(shapes(body.plan, seq![input.id]) =~= seq![variable_of(input.id)]);
    let function = emitter.pure_transformer(source, target, plan)->0;
    assert(shape(function.plan, function.id) == lambda_of(
        input.id,
        apply(known_term(emitter.known.pure), variable_of(input.id)),
    ));
}

// Effects

/// A function over effects: mapped over the first of them, and applied to the others,
/// one after the other.
pub open spec fn over_effects(known: KnownTerms, function: Shape, effects: Seq<Shape>) -> Shape
    decreases effects.len(),
{
    if effects.len() <= 1 {
        apply(apply(known_term(known.map), function), effects[0])
    } else {
        apply(
            apply(known_term(known.apply), over_effects(known, function, effects.drop_last())),
            effects.last(),
        )
    }
}

/// The effects of fields.
pub open spec fn field_effects(fields: Seq<TraversedField>) -> Seq<PlanId> {
    Seq::new(fields.len(), |i: int| fields[i].effect)
}

proof fn lemma_effects_applied_grow(
    emitter: EffectTraversalEmitter,
    fields: Seq<TraversedField>,
    count: nat,
    mapped: Emission,
)
    ensures
        emitter.effects_applied(fields, count, mapped) matches Some(result) ==> continues(
            mapped.plan,
            result.plan,
        ),
    decreases count,
{
    if count > 1 && count <= fields.len() {
        lemma_effects_applied_grow(emitter, fields, (count - 1) as nat, mapped);
        if let Some(before) = emitter.effects_applied(fields, (count - 1) as nat, mapped) {
            if let Some(resolution) = emitter.known.apply {
                let next = stepped(before.plan, Step::Reference { resolution }).applied(
                    before.id,
                ).applied(fields[count - 1].effect);
                assert(continues(before.plan, next.plan));
            }
        }
    }
}

proof fn lemma_effects_applied(
    emitter: EffectTraversalEmitter,
    fields: Seq<TraversedField>,
    count: nat,
    mapped: Emission,
    plan: Seq<Step>,
    function: Shape,
)
    requires
        0 < count <= fields.len(),
        continues(plan, mapped.plan),
        within(plan, field_effects(fields)),
        mapped.id.raw < mapped.plan.len(),
        shape(mapped.plan, mapped.id) == apply(
            apply(known_term(emitter.known.map), function),
            shape(plan, fields[0].effect),
        ),
        emitter.effects_applied(fields, count, mapped) matches Some(result) && result.plan.len()
            <= usize::MAX,
    ensures
        ({
            let result = emitter.effects_applied(fields, count, mapped)->0;
            &&& shape(result.plan, result.id) == over_effects(
                emitter.known,
                function,
                shapes(plan, field_effects(fields)).take(count as int),
            )
            &&& result.id.raw < result.plan.len()
        }),
    decreases count,
{
    let all = shapes(plan, field_effects(fields));
    lemma_effects_applied_grow(emitter, fields, count, mapped);
    let taken = all.take(count as int);
    if count > 1 {
        let before = emitter.effects_applied(fields, (count - 1) as nat, mapped)->0;
        let effect = fields[count - 1].effect;
        assert(field_effects(fields)[count - 1].raw < plan.len());
        let resolution = emitter.known.apply->0;
        let reference = stepped(before.plan, Step::Reference { resolution });
        let partial = reference.applied(before.id);
        let next = partial.applied(effect);
        assert(continues(before.plan, next.plan));
        lemma_effects_applied_grow(emitter, fields, (count - 1) as nat, mapped);
        lemma_effects_applied(emitter, fields, (count - 1) as nat, mapped, plan, function);
        lemma_reference(before.plan, resolution);
        lemma_shape_continues(before.plan, reference.plan, before.id);
        lemma_applied(reference, before.id);
        lemma_shape_continues(plan, partial.plan, effect);
        lemma_applied(partial, effect);
        assert(taken.drop_last() =~= all.take(count - 1));
        assert(taken.last() == shape(plan, effect));
    } else {
        assert(taken[0] == shape(plan, fields[0].effect));
    }
}

/// A rebuilt value is a function of what the effects yield, over the effects in the order
/// of the fields. Without effects it is the value without an effect.
pub proof fn lemma_lifted(
    emitter: EffectTraversalEmitter,
    target: TypeId,
    fields: Seq<TraversedField>,
    rebuilt: Emission,
)
    requires
        rebuilt.id.raw < rebuilt.plan.len(),
        within(rebuilt.plan, field_effects(fields)),
        within(rebuilt.plan, result_binders(fields)),
        emitter.lifted(target, fields, rebuilt) matches Some(effect) && effect.plan.len()
            <= usize::MAX,
    ensures
        ({
            let effect = emitter.lifted(target, fields, rebuilt)->0;
            let plan = rebuilt.plan;
            shape(effect.plan, effect.id) == if fields.len() == 0 {
                apply(known_term(emitter.known.pure), shape(plan, rebuilt.id))
            } else {
                over_effects(
                    emitter.known,
                    function_of(shapes(plan, result_binders(fields)), shape(plan, rebuilt.id)),
                    shapes(plan, field_effects(fields)),
                )
            }
        }),
{
    if fields.len() == 0 {
        lemma_pure(emitter, rebuilt, target);
    } else {
        let planned = PlannedType {
            arguments: result_types(fields),
            effect: None,
            result: target,
        };
        let binders = result_binders(fields);
        let step = Step::Lambda { planned, binders, body: rebuilt.id };
        let function = stepped(rebuilt.plan, step);
        let resolution = emitter.known.map->0;
        let reference = stepped(function.plan, Step::Reference { resolution });
        let partial = reference.applied(function.id);
        let mapped = partial.applied(fields[0].effect);
        assert(continues(rebuilt.plan, mapped.plan));
        let applied = emitter.effects_applied(fields, fields.len(), mapped)->0;
        lemma_effects_applied_grow(emitter, fields, fields.len(), mapped);
        let effect = emitter.lifted(target, fields, rebuilt)->0;
        assert(effect.plan.len() == applied.plan.len() + 1);
        lemma_stepped(rebuilt.plan, step);
        lemma_function(rebuilt.plan, planned, binders, rebuilt.id);
        lemma_reference(function.plan, resolution);
        lemma_shape_continues(function.plan, reference.plan, function.id);
        lemma_applied(reference, function.id);
        assert(field_effects(fields)[0].raw < rebuilt.plan.len());
        lemma_shape_continues(rebuilt.plan, partial.plan, fields[0].effect);
        lemma_applied(partial, fields[0].effect);
        lemma_effects_applied(
            emitter,
            fields,
            fields.len(),
            mapped,
            rebuilt.plan,
            shape(function.plan, function.id),
        );
        let all = shapes(rebuilt.plan, field_effects(fields));
        assert(all.take(fields.len() as int) =~= all);
        lemma_as_type(applied, emitter.effectful(target));
    }
}

// Sequences

/// A traversal with as many identities.
pub open spec fn with_identities(function: Shape, binders: Seq<PlanId>) -> Shape
    decreases binders.len(),
{
    if binders.len() == 0 {
        function
    } else {
        apply(
            with_identities(function, binders.drop_last()),
            lambda_of(binders.last(), variable_of(binders.last())),
        )
    }
}

proof fn lemma_identities_grow(types: Seq<TypeId>, count: nat, operation: Emission)
    ensures
        continues(operation.plan, identities_applied(types, count, operation).plan),
    decreases count,
{
    if count > 0 && count <= types.len() {
        lemma_identities_grow(types, (count - 1) as nat, operation);
        let before = identities_applied(types, (count - 1) as nat, operation);
        assert(continues(before.plan, identities_applied(types, count, operation).plan));
    }
}

proof fn lemma_identities(types: Seq<TypeId>, count: nat, operation: Emission) -> (binders: Seq<
    PlanId,
>)
    requires
        count <= types.len(),
        operation.id.raw < operation.plan.len(),
        identities_applied(types, count, operation).plan.len() <= usize::MAX,
    ensures
        ({
            let applied = identities_applied(types, count, operation);
            &&& binders.len() == count
            &&& shape(applied.plan, applied.id) == with_identities(
                shape(operation.plan, operation.id),
                binders,
            )
            &&& applied.id.raw < applied.plan.len()
        }),
    decreases count,
{
    lemma_identities_grow(types, count, operation);
    if count == 0 {
        Seq::empty()
    } else {
        let before = identities_applied(types, (count - 1) as nat, operation);
        let type_id = types[count - 1];
        let name = super::plan::numbered("effect"@, (count - 1) as nat);
        let first = Step::Binder { name, type_id };
        let input = stepped(before.plan, first);
        let second = Step::Variable { binder: input.id };
        let value = stepped(input.plan, second);
        let third = Step::Lambda {
            planned: arrow_type(type_id, type_id),
            binders: seq![input.id],
            body: value.id,
        };
        let identity = stepped(value.plan, third);
        let applied = identities_applied(types, count, operation);
        assert(continues(before.plan, applied.plan));
        lemma_identities_grow(types, (count - 1) as nat, operation);
        let known = lemma_identities(types, (count - 1) as nat, operation);
        lemma_stepped(before.plan, first);
        lemma_stepped(input.plan, second);
        lemma_shape_continues(input.plan, value.plan, input.id);
        lemma_function(value.plan, arrow_type(type_id, type_id), seq![input.id], value.id);
        assert(shapes(value.plan, seq![input.id]) =~= seq![variable_of(input.id)]);
        lemma_stepped(value.plan, third);
        assert(continues(before.plan, identity.plan));
        lemma_shape_continues(before.plan, identity.plan, before.id);
        lemma_applied(made(identity.plan, before.id), identity.id);
        let binders = known.push(input.id);
        assert(binders.drop_last() =~= known);
        binders
    }
}

/// The sequence of a value is its traversal with the identity for each parameter.
pub proof fn lemma_sequenced(
    operation: (FileId, TermItemId),
    source: TypeId,
    types: Seq<TypeId>,
    result: TypeId,
    plan: Seq<Step>,
)
    requires
        sequenced(operation, source, types, result, plan).plan.len() <= usize::MAX,
    ensures
        ({
            let sequence = sequenced(operation, source, types, result, plan);
            exists|value: PlanId, binders: Seq<PlanId>|
                {
                    &&& binders.len() == types.len()
                    &&& shape(sequence.plan, sequence.id) == #[trigger] lambda_of(
                        value,
                        #[trigger] apply(
                            with_identities(Shape::Term { resolution: operation }, binders),
                            variable_of(value),
                        ),
                    )
                }
        }),
{
    let first = Step::Binder { name: "value"@, type_id: source };
    let value = stepped(plan, first);
    let second = Step::Variable { binder: value.id };
    let variable = stepped(value.plan, second);
    let reference = stepped(variable.plan, Step::Reference { resolution: operation });
    let applied = identities_applied(types, types.len(), reference);
    lemma_identities_grow(types, types.len(), reference);
    let called = applied.applied(variable.id);
    let body = called.as_type(plain_type(result));
    assert(continues(reference.plan, applied.plan));
    assert(continues(applied.plan, body.plan));
    let sequence = sequenced(operation, source, types, result, plan);
    assert(sequence.plan.len() == body.plan.len() + 1);
    lemma_stepped(plan, first);
    lemma_stepped(value.plan, second);
    lemma_reference(variable.plan, operation);
    let binders = lemma_identities(types, types.len(), reference);
    lemma_shape_continues(variable.plan, applied.plan, variable.id);
    lemma_applied(applied, variable.id);
    lemma_as_type(called, plain_type(result));
    lemma_shape_continues(value.plan, body.plan, value.id);
    lemma_function(body.plan, arrow_type(source, result), seq![value.id], body.id);
    assert(shapes(body.plan, seq![value.id]) =~= seq![variable_of(value.id)]);
    let inner = apply(
        with_identities(Shape::Term { resolution: operation }, binders),
        variable_of(value.id),
    );
    assert(shape(sequence.plan, sequence.id) == lambda_of(value.id, inner));
}

// Members

/// Each member of the class is the traversal or the sequence of its own name.
pub proof fn lemma_member_kinds(
    traversal: TraversalKind,
    known: KnownTerms,
    member: (FileId, TermItemId),
)
    ensures
        ({
            let (operation, sequence) = match traversal {
                TraversalKind::Traversable => (known.traverse, known.sequence),
                TraversalKind::Bitraversable => (known.bitraverse, known.bisequence),
            };
            let kind = member_kind(traversal, known, member);
            &&& kind == Some(MemberKind::Traverse) ==> operation == Some(member)
            &&& kind == Some(MemberKind::Sequence) ==> sequence == Some(member)
            &&& kind is None ==> operation != Some(member) && sequence != Some(member)
        }),
{
}

// Containers

/// A container is traversed with the function for its elements.
pub proof fn lemma_container_effected(
    emitter: EffectTraversalEmitter,
    argument: TraversalOperation,
    value: PlanId,
    source: FieldType,
    target: FieldType,
    plan: Seq<Step>,
    function: Emission,
)
    requires
        source.applied() matches Some((_, from)) && (target.applied() matches Some((_, to))
            && emitter.transformer(argument, from, to, plan) == Some(function)),
        continues(plan, function.plan),
        function.id.raw < function.plan.len(),
        value.raw < plan.len(),
        emitter.unary_effected(argument, value, source, target, plan) matches Some(effect)
            && effect.plan.len() <= usize::MAX,
    ensures
        ({
            let effect = emitter.unary_effected(argument, value, source, target, plan)->0;
            &&& emitter.known.traverse is Some
            &&& shape(effect.plan, effect.id) == apply(
                apply(known_term(emitter.known.traverse), shape(function.plan, function.id)),
                shape(plan, value),
            )
        }),
{
    let resolution = emitter.known.traverse->0;
    let reference = stepped(function.plan, Step::Reference { resolution });
    let partial = reference.applied(function.id);
    let whole = partial.applied(value);
    assert(continues(function.plan, whole.plan));
    lemma_reference(function.plan, resolution);
    lemma_shape_continues(function.plan, reference.plan, function.id);
    lemma_applied(reference, function.id);
    lemma_shape_continues(plan, partial.plan, value);
    lemma_applied(partial, value);
    lemma_as_type(whole, emitter.effectful(target.identity()));
}

} // verus!
