//! Derived conversions to and from the generic representation of a type: a sum of
//! constructors, each of which is a product of arguments.

use super::super::types::{FileId, TypeId};
use super::field::FieldType;
use super::foldable::made;
use super::plan::{
    continues, emitted, emitted_as, group_continues, in_order, makes, makes_all,
    numbered, numbered_name, plain_type, stepped, Emission, Instruction, Plan, PlanId, PlanType,
    Sort, Step,
};
use crate::collections::copy_all;
use crate::indexing::items::TermItemId;
use vstd::prelude::*;

verus! {

broadcast use group_continues;

/// The types and values that representations are made of.
#[derive(Clone, Copy, Debug)]
pub struct KnownGeneric {
    pub no_constructors: TypeId,
    pub sum: TypeId,
    pub constructor: TypeId,
    pub no_arguments: TypeId,
    pub argument: TypeId,
    pub product: TypeId,
    pub in_left: (FileId, TermItemId),
    pub in_right: (FileId, TermItemId),
    pub constructor_value: (FileId, TermItemId),
    pub no_arguments_value: (FileId, TermItemId),
    pub argument_value: (FileId, TermItemId),
    pub product_value: (FileId, TermItemId),
    pub to: (FileId, TermItemId),
    pub from: (FileId, TermItemId),
}

/// A member that converts from one type to another.
#[derive(Clone, Copy, Debug, PartialEq, Eq, Structural)]
pub struct GenericMember {
    pub implementation_type: TypeId,
    pub argument_type: TypeId,
    pub result_type: TypeId,
}

/// The member of a function with one argument.
pub fn resolve_generic_member(
    implementation_type: TypeId,
    arguments: &Vec<TypeId>,
    result_type: TypeId,
) -> (member: Option<GenericMember>)
    ensures
        member == (if arguments@.len() == 1 {
            Some(
                GenericMember {
                    implementation_type,
                    argument_type: arguments@[0],
                    result_type,
                },
            )
        } else {
            None
        }),
{
    if arguments.len() == 1 {
        Some(GenericMember { implementation_type, argument_type: arguments[0], result_type })
    } else {
        None
    }
}

/// The argument of a type that is the constructor applied to one.
pub open spec fn one_argument(constructor: TypeId, field: FieldType) -> Option<FieldType> {
    match field {
        FieldType::Application { function, argument, .. } => {
            if !(*function is Application) && function.identity() == constructor {
                Some(*argument)
            } else {
                None
            }
        },
        _ => None,
    }
}

/// The arguments of a type that is the constructor applied to two.
pub open spec fn two_arguments(constructor: TypeId, field: FieldType) -> Option<
    (FieldType, FieldType),
> {
    match field {
        FieldType::Application { function, argument, .. } => match one_argument(
            constructor,
            *function,
        ) {
            Some(first) => Some((first, *argument)),
            None => None,
        },
        _ => None,
    }
}

fn applied_argument(constructor: TypeId, field: &FieldType) -> (argument: Option<&FieldType>)
    ensures
        match argument {
            Some(argument) => one_argument(constructor, *field) == Some(*argument),
            None => one_argument(constructor, *field) is None,
        },
{
    match field {
        FieldType::Application { function, argument, .. } => {
            let nested = match &**function {
                FieldType::Application { .. } => true,
                _ => false,
            };
            if !nested && function.id() == constructor {
                Some(&**argument)
            } else {
                None
            }
        },
        _ => None,
    }
}

fn applied_arguments(constructor: TypeId, field: &FieldType) -> (arguments: Option<
    (&FieldType, &FieldType),
>)
    ensures
        match arguments {
            Some((first, second)) => two_arguments(constructor, *field) == Some((*first, *second)),
            None => two_arguments(constructor, *field) is None,
        },
{
    match field {
        FieldType::Application { function, argument, .. } => {
            let first = applied_argument(constructor, function)?;
            Some((first, &**argument))
        },
        _ => None,
    }
}

// Representations

/// A constructor of the type that conversions are derived for.
#[derive(Debug)]
pub struct ConstructorShape {
    pub resolution: (FileId, TermItemId),
    pub fields: Vec<TypeId>,
}

/// A constructor with its representation.
#[derive(Debug)]
pub struct GenericConstructor<'a> {
    pub shape: &'a ConstructorShape,
    pub representation: &'a FieldType,
    pub fields_representation: &'a FieldType,
}

/// The model of [`GenericConstructor`].
pub struct Represented {
    pub shape: ConstructorShape,
    pub representation: FieldType,
    pub fields_representation: FieldType,
}

impl<'a> View for GenericConstructor<'a> {
    type V = Represented;

    open spec fn view(&self) -> Represented {
        Represented {
            shape: *self.shape,
            representation: *self.representation,
            fields_representation: *self.fields_representation,
        }
    }
}

/// The constructors of a type with their representations, and the types of the sum
/// from each constructor on.
#[derive(Debug)]
pub struct GenericRepresentation<'a> {
    pub derived_type: TypeId,
    pub suffix_types: Vec<TypeId>,
    pub constructors: Vec<GenericConstructor<'a>>,
}

/// The models of constructors.
pub open spec fn represented(constructors: Seq<GenericConstructor>) -> Seq<Represented> {
    Seq::new(constructors.len(), |i: int| constructors[i]@)
}

/// The sum behind the first constructors, with what came before.
pub struct SumParts {
    pub rest: FieldType,
    pub suffix_types: Seq<TypeId>,
    pub constructors: Seq<Represented>,
}

/// The representations of the first constructors: the left sides of nested sums,
/// and for the last constructor what is left.
pub open spec fn sum_parts(
    known: KnownGeneric,
    representation: FieldType,
    shapes: Seq<ConstructorShape>,
    count: nat,
) -> Option<SumParts>
    decreases count,
{
    if count == 0 || count > shapes.len() {
        Some(
            SumParts {
                rest: representation,
                suffix_types: Seq::empty(),
                constructors: Seq::empty(),
            },
        )
    } else {
        match sum_parts(known, representation, shapes, (count - 1) as nat) {
            Some(before) => {
                let split = if count == shapes.len() {
                    Some((before.rest, before.rest))
                } else {
                    two_arguments(known.sum, before.rest)
                };
                match split {
                    Some((part, rest)) => match two_arguments(known.constructor, part) {
                        Some((_, fields_representation)) => Some(
                            SumParts {
                                rest,
                                suffix_types: before.suffix_types.push(before.rest.identity()),
                                constructors: before.constructors.push(
                                    Represented {
                                        shape: shapes[count - 1],
                                        representation: part,
                                        fields_representation,
                                    },
                                ),
                            },
                        ),
                        None => None,
                    },
                    None => None,
                }
            },
            None => None,
        }
    }
}

proof fn lemma_sum_parts_fail(
    known: KnownGeneric,
    representation: FieldType,
    shapes: Seq<ConstructorShape>,
    count: nat,
    more: nat,
)
    requires
        count <= more <= shapes.len(),
        sum_parts(known, representation, shapes, count) is None,
    ensures
        sum_parts(known, representation, shapes, more) is None,
    decreases more,
{
    if count < more {
        lemma_sum_parts_fail(known, representation, shapes, count, (more - 1) as nat);
    }
}

/// The representation is that of the constructors.
pub open spec fn is_representation(
    known: KnownGeneric,
    derived_type: TypeId,
    representation: FieldType,
    shapes: Seq<ConstructorShape>,
    generic: GenericRepresentation,
) -> bool {
    &&& generic.derived_type == derived_type
    &&& shapes.len() == 0 ==> representation.identity() == known.no_constructors
    &&& sum_parts(known, representation, shapes, shapes.len()) matches Some(parts)
    &&& generic.suffix_types@ == parts.suffix_types
    &&& represented(generic.constructors@) == parts.constructors
    &&& generic.suffix_types@.len() == shapes.len()
    &&& generic.constructors@.len() == shapes.len()
}

/// Takes a representation apart; none where it is not that of the constructors. A
/// type without constructors has a representation of its own.
pub fn instantiate_representation<'a>(
    known: &KnownGeneric,
    derived_type: TypeId,
    representation: &'a FieldType,
    shapes: &'a Vec<ConstructorShape>,
) -> (generic: Option<GenericRepresentation<'a>>)
    ensures
        match generic {
            Some(generic) => is_representation(
                *known,
                derived_type,
                *representation,
                shapes@,
                generic,
            ),
            None => if shapes@.len() == 0 {
                representation.identity() != known.no_constructors
            } else {
                sum_parts(*known, *representation, shapes@, shapes@.len()) is None
            },
        },
{
    if shapes.len() == 0 {
        if representation.id() != known.no_constructors {
            return None;
        }
    }
    let mut rest = representation;
    let mut suffix_types: Vec<TypeId> = Vec::new();
    let mut constructors: Vec<GenericConstructor<'a>> = Vec::new();
    let mut index: usize = 0;
    assert(represented(constructors@) =~= Seq::empty());
    while index < shapes.len()
        invariant
            index <= shapes.len(),
            suffix_types@.len() == index,
            constructors@.len() == index,
            sum_parts(*known, *representation, shapes@, index as nat) == Some(
                SumParts {
                    rest: *rest,
                    suffix_types: suffix_types@,
                    constructors: represented(constructors@),
                },
            ),
        decreases shapes.len() - index,
    {
        let ghost before = represented(constructors@);
        let split = if index + 1 == shapes.len() {
            Some((rest, rest))
        } else {
            applied_arguments(known.sum, rest)
        };
        let part = match split {
            Some((part, next)) => match applied_arguments(known.constructor, part) {
                Some((_, fields_representation)) => Some((part, next, fields_representation)),
                None => None,
            },
            None => None,
        };
        if part.is_none() {
            proof {
                lemma_sum_parts_fail(
                    *known,
                    *representation,
                    shapes@,
                    index as nat + 1,
                    shapes@.len(),
                );
            }
            return None;
        }
        let (part, next, fields_representation) = part?;
        suffix_types.push(rest.id());
        constructors.push(
            GenericConstructor {
                shape: &shapes[index],
                representation: part,
                fields_representation,
            },
        );
        assert(represented(constructors@) =~= before.push(constructors@[index as int]@));
        rest = next;
        index += 1;
    }
    Some(GenericRepresentation { derived_type, suffix_types, constructors })
}

// Fields

/// Binders for the first fields.
pub open spec fn bound_fields(plan: Seq<Step>, fields: Seq<TypeId>, count: nat) -> (
    Seq<Step>,
    Seq<PlanId>,
)
    decreases count,
{
    if count == 0 || count > fields.len() {
        (plan, Seq::empty())
    } else {
        let (before, binders) = bound_fields(plan, fields, (count - 1) as nat);
        let binder = stepped(
            before,
            Step::Binder {
                name: numbered("field"@, (count - 1) as nat),
                type_id: fields[count - 1],
            },
        );
        (binder.plan, binders.push(binder.id))
    }
}

fn allocate_field_binders(plan: &mut Plan, fields: &Vec<TypeId>) -> (binders: Vec<PlanId>)
    requires
        in_order(old(plan)@),
    ensures
        in_order(final(plan)@),
        continues(old(plan)@, final(plan)@),
        makes_all(final(plan)@, binders@, Sort::Binder),
        binders@.len() == fields@.len(),
        (final(plan)@, binders@) == bound_fields(old(plan)@, fields@, fields@.len()),
{
    let mut binders: Vec<PlanId> = Vec::new();
    let mut index: usize = 0;
    while index < fields.len()
        invariant
            index <= fields.len(),
            in_order(plan@),
            continues(old(plan)@, plan@),
            makes_all(plan@, binders@, Sort::Binder),
            binders@.len() == index,
            (plan@, binders@) == bound_fields(old(plan)@, fields@, index as nat),
        decreases fields.len() - index,
    {
        let name = numbered_name("field", index);
        let binder = plan.variable_binder(name.as_str(), fields[index]);
        binders.push(binder);
        index += 1;
    }
    binders
}

/// The variables of the first binders.
pub open spec fn variables_of(plan: Seq<Step>, binders: Seq<PlanId>, count: nat) -> (
    Seq<Step>,
    Seq<PlanId>,
)
    decreases count,
{
    if count == 0 || count > binders.len() {
        (plan, Seq::empty())
    } else {
        let (before, values) = variables_of(plan, binders, (count - 1) as nat);
        let value = stepped(before, Step::Variable { binder: binders[count - 1] });
        (value.plan, values.push(value.id))
    }
}

fn allocate_variables(plan: &mut Plan, binders: &Vec<PlanId>) -> (values: Vec<PlanId>)
    requires
        in_order(old(plan)@),
        makes_all(old(plan)@, binders@, Sort::Binder),
    ensures
        in_order(final(plan)@),
        continues(old(plan)@, final(plan)@),
        makes_all(final(plan)@, values@, Sort::Expression),
        (final(plan)@, values@) == variables_of(old(plan)@, binders@, binders@.len()),
{
    let mut values: Vec<PlanId> = Vec::new();
    let mut index: usize = 0;
    while index < binders.len()
        invariant
            index <= binders.len(),
            in_order(plan@),
            continues(old(plan)@, plan@),
            makes_all(old(plan)@, binders@, Sort::Binder),
            makes_all(plan@, values@, Sort::Expression),
            (plan@, values@) == variables_of(old(plan)@, binders@, index as nat),
        decreases binders.len() - index,
    {
        let value = plan.variable(binders[index]);
        values.push(value);
        index += 1;
    }
    values
}

/// A pattern of a constructor.
pub open spec fn constructor_step(
    name: Seq<char>,
    type_id: TypeId,
    resolution: (FileId, TermItemId),
    arguments: Seq<PlanId>,
) -> Step {
    Step::ConstructorPattern { name, type_id, resolution, arguments }
}

/// The pattern of the fields from one on: nested products of arguments. None where
/// the representation is not one of as many fields.
pub open spec fn fields_pattern(
    known: KnownGeneric,
    binders: Seq<PlanId>,
    from: nat,
    representation: FieldType,
    plan: Seq<Step>,
) -> Option<Emission>
    decreases binders.len() - from,
{
    if from >= binders.len() {
        if representation.identity() == known.no_arguments {
            Some(
                stepped(
                    plan,
                    constructor_step(
                        "noArguments"@,
                        representation.identity(),
                        known.no_arguments_value,
                        Seq::empty(),
                    ),
                ),
            )
        } else {
            None
        }
    } else if from + 1 == binders.len() {
        match one_argument(known.argument, representation) {
            Some(_) => Some(
                stepped(
                    plan,
                    constructor_step(
                        "argument"@,
                        representation.identity(),
                        known.argument_value,
                        seq![binders[from as int]],
                    ),
                ),
            ),
            None => None,
        }
    } else {
        match two_arguments(known.product, representation) {
            Some((left, right)) => match one_argument(known.argument, left) {
                Some(_) => {
                    let argument = stepped(
                        plan,
                        constructor_step(
                            "argument"@,
                            left.identity(),
                            known.argument_value,
                            seq![binders[from as int]],
                        ),
                    );
                    match fields_pattern(known, binders, from + 1, right, argument.plan) {
                        Some(remaining) => Some(
                            stepped(
                                remaining.plan,
                                constructor_step(
                                    "product"@,
                                    representation.identity(),
                                    known.product_value,
                                    seq![argument.id, remaining.id],
                                ),
                            ),
                        ),
                        None => None,
                    }
                },
                None => None,
            },
            None => None,
        }
    }
}

fn single(id: PlanId) -> (ids: Vec<PlanId>)
    ensures
        ids@ == seq![id],
{
    let mut ids: Vec<PlanId> = Vec::new();
    ids.push(id);
    assert(ids@ =~= seq![id]);
    ids
}

fn emit_fields_pattern(
    plan: &mut Plan,
    known: &KnownGeneric,
    binders: &Vec<PlanId>,
    from: usize,
    representation: &FieldType,
) -> (pattern: Option<PlanId>)
    requires
        in_order(old(plan)@),
        makes_all(old(plan)@, binders@, Sort::Binder),
        from <= binders@.len(),
    ensures
        emitted_as(
            old(plan)@,
            final(plan)@,
            fields_pattern(*known, binders@, from as nat, *representation, old(plan)@),
            pattern,
            Sort::Binder,
        ),
    decreases binders@.len() - from,
{
    if from == binders.len() {
        if representation.id() != known.no_arguments {
            return None;
        }
        let arguments: Vec<PlanId> = Vec::new();
        assert(arguments@ =~= Seq::empty());
        return Some(
            plan.constructor_pattern(
                "noArguments",
                representation.id(),
                known.no_arguments_value,
                arguments,
            ),
        );
    }
    if from + 1 == binders.len() {
        let _ = applied_argument(known.argument, representation)?;
        return Some(
            plan.constructor_pattern(
                "argument",
                representation.id(),
                known.argument_value,
                single(binders[from]),
            ),
        );
    }
    let (left, right) = applied_arguments(known.product, representation)?;
    let _ = applied_argument(known.argument, left)?;
    let argument = plan.constructor_pattern(
        "argument",
        left.id(),
        known.argument_value,
        single(binders[from]),
    );
    let remaining = emit_fields_pattern(plan, known, binders, from + 1, right)?;
    let mut arguments: Vec<PlanId> = Vec::new();
    arguments.push(argument);
    arguments.push(remaining);
    assert(arguments@ =~= seq![argument, remaining]);
    Some(
        plan.constructor_pattern(
            "product",
            representation.id(),
            known.product_value,
            arguments,
        ),
    )
}

/// The first values in front of a product, as arguments.
pub open spec fn products(
    known: KnownGeneric,
    values: Seq<PlanId>,
    count: nat,
    result: Emission,
) -> Emission
    decreases count,
{
    if count == 0 || count > values.len() {
        result
    } else {
        let argument = stepped(
            result.plan,
            Step::Reference { resolution: known.argument_value },
        ).applied(values[count - 1]);
        let product = stepped(
            argument.plan,
            Step::Reference { resolution: known.product_value },
        ).applied(argument.id).applied(result.id);
        products(known, values, (count - 1) as nat, product)
    }
}

/// The product of all values as arguments.
pub open spec fn fields_expression(
    known: KnownGeneric,
    values: Seq<PlanId>,
    plan: Seq<Step>,
) -> Emission {
    if values.len() == 0 {
        stepped(plan, Step::Reference { resolution: known.no_arguments_value })
    } else {
        products(
            known,
            values,
            (values.len() - 1) as nat,
            stepped(plan, Step::Reference { resolution: known.argument_value }).applied(
                values.last(),
            ),
        )
    }
}

fn emit_fields_expression(plan: &mut Plan, known: &KnownGeneric, values: &Vec<PlanId>) -> (product:
    PlanId)
    requires
        in_order(old(plan)@),
        makes_all(old(plan)@, values@, Sort::Expression),
    ensures
        in_order(final(plan)@),
        continues(old(plan)@, final(plan)@),
        makes(final(plan)@, product, Sort::Expression),
        made(final(plan)@, product) == fields_expression(*known, values@, old(plan)@),
{
    if values.len() == 0 {
        return plan.term_reference(known.no_arguments_value);
    }
    let mut index: usize = values.len() - 1;
    let argument = plan.term_reference(known.argument_value);
    let mut result = plan.apply(argument, values[index]);
    while index > 0
        invariant
            index < values.len(),
            in_order(plan@),
            continues(old(plan)@, plan@),
            makes(plan@, result, Sort::Expression),
            makes_all(old(plan)@, values@, Sort::Expression),
            fields_expression(*known, values@, old(plan)@) == products(
                *known,
                values@,
                index as nat,
                made(plan@, result),
            ),
        decreases index,
    {
        index -= 1;
        let argument = plan.term_reference(known.argument_value);
        let argument = plan.apply(argument, values[index]);
        let product = plan.term_reference(known.product_value);
        let product = plan.apply(product, argument);
        result = plan.apply(product, result);
    }
    result
}

// Sums

/// A pattern within as many right sides as given, the innermost first.
pub open spec fn right_patterns(
    known: KnownGeneric,
    suffix_types: Seq<TypeId>,
    count: nat,
    pattern: Emission,
) -> Emission
    decreases count,
{
    if count == 0 || count > suffix_types.len() {
        pattern
    } else {
        right_patterns(
            known,
            suffix_types,
            (count - 1) as nat,
            stepped(
                pattern.plan,
                constructor_step(
                    "inRight"@,
                    suffix_types[count - 1],
                    known.in_right,
                    seq![pattern.id],
                ),
            ),
        )
    }
}

/// The pattern of a constructor within the sum: the left side of what is left at its
/// position, unless it is the last one, within as many right sides as come before.
pub open spec fn sum_pattern(
    known: KnownGeneric,
    suffix_types: Seq<TypeId>,
    position: nat,
    pattern: Emission,
) -> Emission {
    right_patterns(
        known,
        suffix_types,
        position,
        if suffix_types.len() - position > 1 {
            stepped(
                pattern.plan,
                constructor_step(
                    "inLeft"@,
                    suffix_types[position as int],
                    known.in_left,
                    seq![pattern.id],
                ),
            )
        } else {
            pattern
        },
    )
}

fn wrap_sum_pattern(
    plan: &mut Plan,
    known: &KnownGeneric,
    suffix_types: &Vec<TypeId>,
    pattern: PlanId,
    position: usize,
) -> (wrapped: PlanId)
    requires
        in_order(old(plan)@),
        makes(old(plan)@, pattern, Sort::Binder),
        position < suffix_types@.len(),
    ensures
        in_order(final(plan)@),
        continues(old(plan)@, final(plan)@),
        makes(final(plan)@, wrapped, Sort::Binder),
        made(final(plan)@, wrapped) == sum_pattern(
            *known,
            suffix_types@,
            position as nat,
            made(old(plan)@, pattern),
        ),
{
    let mut wrapped = pattern;
    if suffix_types.len() - position > 1 {
        wrapped =
        plan.constructor_pattern(
            "inLeft",
            suffix_types[position],
            known.in_left,
            single(wrapped),
        );
    }
    let mut outer: usize = position;
    while outer > 0
        invariant
            outer <= position < suffix_types.len(),
            in_order(plan@),
            continues(old(plan)@, plan@),
            makes(plan@, wrapped, Sort::Binder),
            sum_pattern(*known, suffix_types@, position as nat, made(old(plan)@, pattern))
                == right_patterns(*known, suffix_types@, outer as nat, made(plan@, wrapped)),
        decreases outer,
    {
        outer -= 1;
        wrapped =
        plan.constructor_pattern(
            "inRight",
            suffix_types[outer],
            known.in_right,
            single(wrapped),
        );
    }
    wrapped
}

/// An expression within as many right sides as given, the innermost first.
pub open spec fn right_expressions(
    known: KnownGeneric,
    suffix_types: Seq<TypeId>,
    count: nat,
    body: Emission,
) -> Emission
    decreases count,
{
    if count == 0 || count > suffix_types.len() {
        body
    } else {
        right_expressions(
            known,
            suffix_types,
            (count - 1) as nat,
            stepped(body.plan, Step::Reference { resolution: known.in_right }).applied(
                body.id,
            ).as_type(plain_type(suffix_types[count - 1])),
        )
    }
}

/// The expression of a constructor within the sum.
pub open spec fn sum_expression(
    known: KnownGeneric,
    suffix_types: Seq<TypeId>,
    position: nat,
    body: Emission,
) -> Emission {
    right_expressions(
        known,
        suffix_types,
        position,
        if suffix_types.len() - position > 1 {
            stepped(body.plan, Step::Reference { resolution: known.in_left }).applied(
                body.id,
            ).as_type(plain_type(suffix_types[position as int]))
        } else {
            body
        },
    )
}

fn wrap_sum_expression(
    plan: &mut Plan,
    known: &KnownGeneric,
    suffix_types: &Vec<TypeId>,
    body: PlanId,
    position: usize,
) -> (wrapped: PlanId)
    requires
        in_order(old(plan)@),
        makes(old(plan)@, body, Sort::Expression),
        position < suffix_types@.len(),
    ensures
        in_order(final(plan)@),
        continues(old(plan)@, final(plan)@),
        makes(final(plan)@, wrapped, Sort::Expression),
        made(final(plan)@, wrapped) == sum_expression(
            *known,
            suffix_types@,
            position as nat,
            made(old(plan)@, body),
        ),
{
    let mut wrapped = body;
    if suffix_types.len() - position > 1 {
        let in_left = plan.term_reference(known.in_left);
        let applied = plan.apply(in_left, wrapped);
        wrapped = plan.subtype(applied, PlanType::plain(suffix_types[position]));
    }
    let mut outer: usize = position;
    while outer > 0
        invariant
            outer <= position < suffix_types.len(),
            in_order(plan@),
            continues(old(plan)@, plan@),
            makes(plan@, wrapped, Sort::Expression),
            sum_expression(*known, suffix_types@, position as nat, made(old(plan)@, body))
                == right_expressions(*known, suffix_types@, outer as nat, made(plan@, wrapped)),
        decreases outer,
    {
        outer -= 1;
        let in_right = plan.term_reference(known.in_right);
        let applied = plan.apply(in_right, wrapped);
        wrapped = plan.subtype(applied, PlanType::plain(suffix_types[outer]));
    }
    wrapped
}

// Alternatives

/// The alternative that makes a constructor of its representation.
pub open spec fn to_alternative(
    known: KnownGeneric,
    suffix_types: Seq<TypeId>,
    constructor: Represented,
    position: nat,
    result_type: TypeId,
    plan: Seq<Step>,
) -> Option<Emission> {
    let fields = constructor.shape.fields@;
    let (bound, binders) = bound_fields(plan, fields, fields.len());
    match fields_pattern(known, binders, 0, constructor.fields_representation, bound) {
        Some(inner) => {
            let pattern = sum_pattern(
                known,
                suffix_types,
                position,
                stepped(
                    inner.plan,
                    constructor_step(
                        "constructor"@,
                        constructor.representation.identity(),
                        known.constructor_value,
                        seq![inner.id],
                    ),
                ),
            );
            let reference = stepped(
                pattern.plan,
                Step::Reference { resolution: constructor.shape.resolution },
            );
            let body = variables_applied(reference, binders, binders.len()).as_type(
                plain_type(result_type),
            );
            Some(stepped(body.plan, Step::Alternative { pattern: pattern.id, body: body.id }))
        },
        None => None,
    }
}

/// A function applied to the variables of the first binders, one after the other.
pub open spec fn variables_applied(function: Emission, binders: Seq<PlanId>, count: nat) -> Emission
    decreases count,
{
    if count == 0 || count > binders.len() {
        function
    } else {
        let before = variables_applied(function, binders, (count - 1) as nat);
        let value = stepped(before.plan, Step::Variable { binder: binders[count - 1] });
        made(value.plan, before.id).applied(value.id)
    }
}

fn apply_variables(plan: &mut Plan, function: PlanId, binders: &Vec<PlanId>) -> (applied: PlanId)
    requires
        in_order(old(plan)@),
        makes(old(plan)@, function, Sort::Expression),
        makes_all(old(plan)@, binders@, Sort::Binder),
    ensures
        in_order(final(plan)@),
        continues(old(plan)@, final(plan)@),
        makes(final(plan)@, applied, Sort::Expression),
        made(final(plan)@, applied) == variables_applied(
            made(old(plan)@, function),
            binders@,
            binders@.len(),
        ),
{
    let mut applied = function;
    let mut index: usize = 0;
    while index < binders.len()
        invariant
            index <= binders.len(),
            in_order(plan@),
            continues(old(plan)@, plan@),
            makes(plan@, applied, Sort::Expression),
            makes_all(old(plan)@, binders@, Sort::Binder),
            made(plan@, applied) == variables_applied(
                made(old(plan)@, function),
                binders@,
                index as nat,
            ),
        decreases binders.len() - index,
    {
        let value = plan.variable(binders[index]);
        applied = plan.apply(applied, value);
        index += 1;
    }
    applied
}

fn emit_to_alternative(
    plan: &mut Plan,
    known: &KnownGeneric,
    suffix_types: &Vec<TypeId>,
    constructor: &GenericConstructor,
    position: usize,
    result_type: TypeId,
) -> (alternative: Option<PlanId>)
    requires
        in_order(old(plan)@),
        position < suffix_types@.len(),
    ensures
        emitted_as(
            old(plan)@,
            final(plan)@,
            to_alternative(
                *known,
                suffix_types@,
                constructor@,
                position as nat,
                result_type,
                old(plan)@,
            ),
            alternative,
            Sort::Alternative,
        ),
{
    let binders = allocate_field_binders(plan, &constructor.shape.fields);
    let inner = emit_fields_pattern(plan, known, &binders, 0, constructor.fields_representation)?;
    let pattern = plan.constructor_pattern(
        "constructor",
        constructor.representation.id(),
        known.constructor_value,
        single(inner),
    );
    let pattern = wrap_sum_pattern(plan, known, suffix_types, pattern, position);
    let reference = plan.term_reference(constructor.shape.resolution);
    let body = apply_variables(plan, reference, &binders);
    let body = plan.subtype(body, PlanType::plain(result_type));
    Some(plan.alternative(pattern, body))
}

/// The alternative that makes the representation of a constructor.
pub open spec fn from_alternative(
    known: KnownGeneric,
    derived_type: TypeId,
    suffix_types: Seq<TypeId>,
    constructor: Represented,
    position: nat,
    result_type: TypeId,
    plan: Seq<Step>,
) -> Emission {
    let fields = constructor.shape.fields@;
    let (bound, binders) = bound_fields(plan, fields, fields.len());
    let pattern = stepped(
        bound,
        constructor_step(
            "constructor"@,
            derived_type,
            constructor.shape.resolution,
            binders,
        ),
    );
    let (made_values, values) = variables_of(pattern.plan, binders, binders.len());
    let product = fields_expression(known, values, made_values);
    let own = stepped(
        product.plan,
        Step::Reference { resolution: known.constructor_value },
    ).applied(product.id).as_type(plain_type(constructor.representation.identity()));
    let body = sum_expression(known, suffix_types, position, own).as_type(
        plain_type(result_type),
    );
    stepped(body.plan, Step::Alternative { pattern: pattern.id, body: body.id })
}

fn emit_from_alternative(
    plan: &mut Plan,
    known: &KnownGeneric,
    derived_type: TypeId,
    suffix_types: &Vec<TypeId>,
    constructor: &GenericConstructor,
    position: usize,
    result_type: TypeId,
) -> (alternative: PlanId)
    requires
        in_order(old(plan)@),
        position < suffix_types@.len(),
    ensures
        in_order(final(plan)@),
        continues(old(plan)@, final(plan)@),
        makes(final(plan)@, alternative, Sort::Alternative),
        made(final(plan)@, alternative) == from_alternative(
            *known,
            derived_type,
            suffix_types@,
            constructor@,
            position as nat,
            result_type,
            old(plan)@,
        ),
{
    let binders = allocate_field_binders(plan, &constructor.shape.fields);
    let pattern = plan.constructor_pattern(
        "constructor",
        derived_type,
        constructor.shape.resolution,
        copy_all(&binders),
    );
    let values = allocate_variables(plan, &binders);
    let product = emit_fields_expression(plan, known, &values);
    let own = plan.term_reference(known.constructor_value);
    let own = plan.apply(own, product);
    let own = plan.subtype(own, PlanType::plain(constructor.representation.id()));
    let body = wrap_sum_expression(plan, known, suffix_types, own, position);
    let body = plan.subtype(body, PlanType::plain(result_type));
    plan.alternative(pattern, body)
}

// Members

/// The alternatives that make the first constructors of their representations.
pub open spec fn to_alternatives(
    known: KnownGeneric,
    suffix_types: Seq<TypeId>,
    constructors: Seq<Represented>,
    count: nat,
    result_type: TypeId,
    plan: Seq<Step>,
) -> Option<(Seq<Step>, Seq<PlanId>)>
    decreases count,
{
    if count == 0 || count > constructors.len() {
        Some((plan, Seq::empty()))
    } else {
        match to_alternatives(
            known,
            suffix_types,
            constructors,
            (count - 1) as nat,
            result_type,
            plan,
        ) {
            Some((before, alternatives)) => match to_alternative(
                known,
                suffix_types,
                constructors[count - 1],
                (count - 1) as nat,
                result_type,
                before,
            ) {
                Some(alternative) => Some((alternative.plan, alternatives.push(alternative.id))),
                None => None,
            },
            None => None,
        }
    }
}

proof fn lemma_to_alternatives_fail(
    known: KnownGeneric,
    suffix_types: Seq<TypeId>,
    constructors: Seq<Represented>,
    count: nat,
    more: nat,
    result_type: TypeId,
    plan: Seq<Step>,
)
    requires
        count <= more <= constructors.len(),
        to_alternatives(known, suffix_types, constructors, count, result_type, plan) is None,
    ensures
        to_alternatives(known, suffix_types, constructors, more, result_type, plan) is None,
    decreases more,
{
    if count < more {
        lemma_to_alternatives_fail(
            known,
            suffix_types,
            constructors,
            count,
            (more - 1) as nat,
            result_type,
            plan,
        );
    }
}

/// The alternatives that make the representations of the first constructors.
pub open spec fn from_alternatives(
    known: KnownGeneric,
    derived_type: TypeId,
    suffix_types: Seq<TypeId>,
    constructors: Seq<Represented>,
    count: nat,
    result_type: TypeId,
    plan: Seq<Step>,
) -> (Seq<Step>, Seq<PlanId>)
    decreases count,
{
    if count == 0 || count > constructors.len() {
        (plan, Seq::empty())
    } else {
        let (before, alternatives) = from_alternatives(
            known,
            derived_type,
            suffix_types,
            constructors,
            (count - 1) as nat,
            result_type,
            plan,
        );
        let alternative = from_alternative(
            known,
            derived_type,
            suffix_types,
            constructors[count - 1],
            (count - 1) as nat,
            result_type,
            before,
        );
        (alternative.plan, alternatives.push(alternative.id))
    }
}

/// A conversion of a value that cannot exist: it calls itself.
pub open spec fn impossible(
    member: GenericMember,
    operation: (FileId, TermItemId),
    plan: Seq<Step>,
) -> Emission {
    let value = stepped(plan, Step::Binder { name: "value"@, type_id: member.argument_type });
    let argument = stepped(value.plan, Step::Variable { binder: value.id });
    let body = stepped(argument.plan, Step::Reference { resolution: operation }).applied(
        argument.id,
    ).as_type(plain_type(member.result_type));
    let pattern = stepped(
        body.plan,
        Step::WildcardPattern { name: "impossible"@, type_id: member.argument_type },
    );
    let alternative = stepped(
        pattern.plan,
        Step::Alternative { pattern: pattern.id, body: body.id },
    );
    let scrutinee = stepped(alternative.plan, Step::Variable { binder: value.id });
    let case = stepped(
        scrutinee.plan,
        Step::Case {
            type_id: member.result_type,
            scrutinee: scrutinee.id,
            alternatives: seq![alternative.id],
        },
    );
    stepped(
        case.plan,
        Step::Lambda {
            planned: plain_type(member.implementation_type),
            binders: seq![value.id],
            body: case.id,
        },
    )
}

/// Emits a conversion of a value that cannot exist.
pub fn generate_impossible_member(
    plan: &mut Plan,
    member: GenericMember,
    operation: (FileId, TermItemId),
) -> (function: PlanId)
    requires
        in_order(old(plan)@),
    ensures
        in_order(final(plan)@),
        continues(old(plan)@, final(plan)@),
        makes(final(plan)@, function, Sort::Expression),
        made(final(plan)@, function) == impossible(member, operation, old(plan)@),
{
    let value = plan.variable_binder("value", member.argument_type);
    let argument = plan.variable(value);
    let reference = plan.term_reference(operation);
    let body = plan.apply(reference, argument);
    let body = plan.subtype(body, PlanType::plain(member.result_type));
    let pattern = plan.push(
        Instruction::WildcardPattern {
            name: "impossible".to_owned(),
            type_id: member.argument_type,
        },
    );
    let alternative = plan.alternative(pattern, body);
    let scrutinee = plan.variable(value);
    let case = plan.case(member.result_type, scrutinee, single(alternative));
    plan.unary_lambda(PlanType::plain(member.implementation_type), value, case)
}

/// A function of a value by cases.
pub open spec fn by_cases(
    member: GenericMember,
    value: PlanId,
    scrutinee: PlanId,
    alternatives: Seq<PlanId>,
    plan: Seq<Step>,
) -> Emission {
    let case = stepped(plan, Step::Case { type_id: member.result_type, scrutinee, alternatives });
    stepped(
        case.plan,
        Step::Lambda {
            planned: plain_type(member.implementation_type),
            binders: seq![value],
            body: case.id,
        },
    )
}

/// The conversion from the representation, with one alternative for each
/// constructor.
pub open spec fn converted_to(
    known: KnownGeneric,
    suffix_types: Seq<TypeId>,
    constructors: Seq<Represented>,
    member: GenericMember,
    plan: Seq<Step>,
) -> Option<Emission> {
    if constructors.len() == 0 {
        Some(impossible(member, known.to, plan))
    } else {
        let value = stepped(
            plan,
            Step::Binder { name: "representation"@, type_id: member.argument_type },
        );
        let scrutinee = stepped(value.plan, Step::Variable { binder: value.id });
        match to_alternatives(
            known,
            suffix_types,
            constructors,
            constructors.len(),
            member.result_type,
            scrutinee.plan,
        ) {
            Some((after, alternatives)) => Some(
                by_cases(member, value.id, scrutinee.id, alternatives, after),
            ),
            None => None,
        }
    }
}

fn emit_to_alternatives(
    plan: &mut Plan,
    known: &KnownGeneric,
    representation: &GenericRepresentation,
    result_type: TypeId,
) -> (alternatives: Option<Vec<PlanId>>)
    requires
        in_order(old(plan)@),
        representation.suffix_types@.len() == representation.constructors@.len(),
    ensures
        ({
            let expected = to_alternatives(
                *known,
                representation.suffix_types@,
                represented(representation.constructors@),
                representation.constructors@.len(),
                result_type,
                old(plan)@,
            );
            match alternatives {
                Some(alternatives) => {
                    &&& expected == Some((final(plan)@, alternatives@))
                    &&& in_order(final(plan)@)
                    &&& continues(old(plan)@, final(plan)@)
                    &&& makes_all(final(plan)@, alternatives@, Sort::Alternative)
                },
                None => expected is None,
            }
        }),
{
    let mut alternatives: Vec<PlanId> = Vec::new();
    let mut index: usize = 0;
    while index < representation.constructors.len()
        invariant
            index <= representation.constructors.len(),
            representation.suffix_types@.len() == representation.constructors@.len(),
            in_order(plan@),
            continues(old(plan)@, plan@),
            makes_all(plan@, alternatives@, Sort::Alternative),
            to_alternatives(
                *known,
                representation.suffix_types@,
                represented(representation.constructors@),
                index as nat,
                result_type,
                old(plan)@,
            ) == Some((plan@, alternatives@)),
        decreases representation.constructors.len() - index,
    {
        let alternative = emit_to_alternative(
            plan,
            known,
            &representation.suffix_types,
            &representation.constructors[index],
            index,
            result_type,
        );
        if alternative.is_none() {
            proof {
                lemma_to_alternatives_fail(
                    *known,
                    representation.suffix_types@,
                    represented(representation.constructors@),
                    index as nat + 1,
                    representation.constructors@.len(),
                    result_type,
                    old(plan)@,
                );
            }
            return None;
        }
        alternatives.push(alternative?);
        index += 1;
    }
    Some(alternatives)
}

/// Emits the conversion from the representation.
pub fn generate_to(
    plan: &mut Plan,
    known: &KnownGeneric,
    representation: &GenericRepresentation,
    member: GenericMember,
) -> (function: Option<PlanId>)
    requires
        in_order(old(plan)@),
        representation.suffix_types@.len() == representation.constructors@.len(),
    ensures
        emitted(
            old(plan)@,
            final(plan)@,
            converted_to(
                *known,
                representation.suffix_types@,
                represented(representation.constructors@),
                member,
                old(plan)@,
            ),
            function,
        ),
{
    if representation.constructors.len() == 0 {
        return Some(generate_impossible_member(plan, member, known.to));
    }
    let value = plan.variable_binder("representation", member.argument_type);
    let scrutinee = plan.variable(value);
    let alternatives = emit_to_alternatives(plan, known, representation, member.result_type)?;
    let case = plan.case(member.result_type, scrutinee, alternatives);
    Some(plan.unary_lambda(PlanType::plain(member.implementation_type), value, case))
}

/// The conversion to the representation, with one alternative for each constructor.
pub open spec fn converted_from(
    known: KnownGeneric,
    derived_type: TypeId,
    suffix_types: Seq<TypeId>,
    constructors: Seq<Represented>,
    member: GenericMember,
    plan: Seq<Step>,
) -> Emission {
    if constructors.len() == 0 {
        impossible(member, known.from, plan)
    } else {
        let value = stepped(plan, Step::Binder { name: "value"@, type_id: member.argument_type });
        let scrutinee = stepped(value.plan, Step::Variable { binder: value.id });
        let (after, alternatives) = from_alternatives(
            known,
            derived_type,
            suffix_types,
            constructors,
            constructors.len(),
            member.result_type,
            scrutinee.plan,
        );
        by_cases(member, value.id, scrutinee.id, alternatives, after)
    }
}

/// Emits the conversion to the representation.
pub fn generate_from(
    plan: &mut Plan,
    known: &KnownGeneric,
    representation: &GenericRepresentation,
    member: GenericMember,
) -> (function: PlanId)
    requires
        in_order(old(plan)@),
        representation.suffix_types@.len() == representation.constructors@.len(),
    ensures
        in_order(final(plan)@),
        makes(final(plan)@, function, Sort::Expression),
        made(final(plan)@, function) == converted_from(
            *known,
            representation.derived_type,
            representation.suffix_types@,
            represented(representation.constructors@),
            member,
            old(plan)@,
        ),
{
    if representation.constructors.len() == 0 {
        return generate_impossible_member(plan, member, known.from);
    }
    let value = plan.variable_binder("value", member.argument_type);
    let scrutinee = plan.variable(value);
    let ghost begun = plan@;
    let mut alternatives: Vec<PlanId> = Vec::new();
    let mut index: usize = 0;
    while index < representation.constructors.len()
        invariant
            index <= representation.constructors.len(),
            representation.suffix_types@.len() == representation.constructors@.len(),
            in_order(plan@),
            makes(plan@, value, Sort::Binder),
            makes(plan@, scrutinee, Sort::Expression),
            makes_all(plan@, alternatives@, Sort::Alternative),
            (plan@, alternatives@) == from_alternatives(
                *known,
                representation.derived_type,
                representation.suffix_types@,
                represented(representation.constructors@),
                index as nat,
                member.result_type,
                begun,
            ),
        decreases representation.constructors.len() - index,
    {
        let alternative = emit_from_alternative(
            plan,
            known,
            representation.derived_type,
            &representation.suffix_types,
            &representation.constructors[index],
            index,
            member.result_type,
        );
        alternatives.push(alternative);
        index += 1;
    }
    let case = plan.case(member.result_type, scrutinee, alternatives);
    plan.unary_lambda(PlanType::plain(member.implementation_type), value, case)
}

} // verus!
