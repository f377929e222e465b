//! Derived maps over types whose parameters occur in both variances.

use super::super::types::{FileId, TypeId};
use super::field::{find_row_field, row_field, FieldType, RowField};
use super::foldable::made;
use super::mapped::{binary_term, is_identity, lambda_of, term_of, unary_term, variable_of, Maps};
use super::plan::{
    applied_all, apply_all, arrow_type, continues, emitted, emitted_as, group_continues, in_order,
    makes, makes_all, makes_updates, numbered, numbered_name, plain_type, stepped, Emission,
    Instruction, KnownTerms, Plan, PlanId, PlanType, Sort, Step,
};
use super::shapes::{
    apply, bounds, case_bodies, case_patterns, cases_by, function_of, lemma_bounds_push,
    lemma_cases_continue, lemma_cases_push, lemma_made_within, lemma_shape_continues,
    lemma_shapes_continue, lemma_updated, shape, shapes, update_labels, update_values, updated_of,
    Shape,
};
use super::variance::{
    BinaryApplicationArguments, ConstructorRecipe, RecordFieldRecipe, TraversalOperation,
    TraversalParameter, Variance, VarianceRecipe,
};
use vstd::prelude::*;

verus! {

broadcast use group_continues;

#[derive(Clone, Copy, Debug, PartialEq, Eq, Structural)]
pub enum TraversalKind {
    Contravariant,
    Profunctor,
}

/// One value for each parameter.
#[allow(inconsistent_fields)]
#[derive(Clone, Copy, Debug, PartialEq, Eq, Structural)]
pub enum Mappings<T> {
    Contravariant(T),
    Profunctor { first: T, second: T },
}

impl<T> Mappings<T> {
    /// The value for a parameter.
    pub open spec fn of(self, parameter: TraversalParameter) -> Option<T> {
        match (self, parameter) {
            (Mappings::Contravariant(function), TraversalParameter::First) => Some(function),
            (Mappings::Profunctor { first, .. }, TraversalParameter::First) => Some(first),
            (Mappings::Profunctor { second, .. }, TraversalParameter::Second) => Some(second),
            (Mappings::Contravariant(_), TraversalParameter::Second) => None,
        }
    }
}

impl Mappings<PlanId> {
    pub fn mapping_for(self, parameter: TraversalParameter) -> (mapping: Option<PlanId>)
        ensures
            mapping == self.of(parameter),
    {
        match (self, parameter) {
            (Mappings::Contravariant(function), TraversalParameter::First) => Some(function),
            (Mappings::Profunctor { first, .. }, TraversalParameter::First) => Some(first),
            (Mappings::Profunctor { second, .. }, TraversalParameter::Second) => Some(second),
            (Mappings::Contravariant(_), TraversalParameter::Second) => None,
        }
    }

    /// The mappings have been made.
    pub open spec fn made(self, plan: Seq<Step>) -> bool {
        match self {
            Mappings::Contravariant(function) => makes(plan, function, Sort::Expression),
            Mappings::Profunctor { first, second } => makes(plan, first, Sort::Expression) && makes(
                plan,
                second,
                Sort::Expression,
            ),
        }
    }
}

/// The name of a function's argument below other functions.
pub open spec fn argument_name(depth: nat) -> Seq<char> {
    if depth == 0 {
        "argument"@
    } else {
        numbered("argument"@, depth)
    }
}

/// What is transformed below an edge of a variance: a contravariant edge reverses
/// the obligation, because it consumes the transformation from target to source.
pub open spec fn obligation(variance: Variance, source: FieldType, target: FieldType) -> (
    FieldType,
    FieldType,
) {
    match variance {
        Variance::Covariant => (source, target),
        Variance::Contravariant => (target, source),
    }
}

/// What the functions of a map are.
pub open spec fn mapping_shapes(mappings: Mappings<PlanId>, plan: Seq<Step>) -> Mappings<Shape> {
    match mappings {
        Mappings::Contravariant(function) => Mappings::Contravariant(shape(plan, function)),
        Mappings::Profunctor { first, second } => Mappings::Profunctor {
            first: shape(plan, first),
            second: shape(plan, second),
        },
    }
}

/// The variables of binders.
pub open spec fn variables_of(binders: Mappings<PlanId>) -> Mappings<Shape> {
    match binders {
        Mappings::Contravariant(function) => Mappings::Contravariant(variable_of(function)),
        Mappings::Profunctor { first, second } => Mappings::Profunctor {
            first: variable_of(first),
            second: variable_of(second),
        },
    }
}

/// The binders of a map's functions, in order.
pub open spec fn function_binders(binders: Mappings<PlanId>) -> Seq<Shape> {
    match binders {
        Mappings::Contravariant(function) => seq![variable_of(function)],
        Mappings::Profunctor { first, second } => seq![variable_of(first), variable_of(second)],
    }
}

/// The binders, one for each function.
pub open spec fn bound_mappings(mappings: Mappings<TypeId>, binders: Seq<PlanId>) -> Mappings<
    PlanId,
> {
    match mappings {
        Mappings::Contravariant(_) => Mappings::Contravariant(binders[0]),
        Mappings::Profunctor { .. } => Mappings::Profunctor {
            first: binders[0],
            second: binders[1],
        },
    }
}

/// A map over the functions that are bound.
pub open spec fn maps_over(binders: Mappings<PlanId>, known: KnownTerms) -> Maps {
    Maps { mappings: variables_of(binders), known }
}

/// A function of mappings and of a value, which it takes apart.
pub open spec fn map_of(
    mappings: Mappings<PlanId>,
    value: PlanId,
    patterns: Seq<Shape>,
    bodies: Seq<Shape>,
) -> Shape {
    function_of(
        function_binders(mappings).push(variable_of(value)),
        cases_by(variable_of(value), patterns, bodies),
    )
}

/// Emits a map.
#[derive(Clone, Copy, Debug)]
pub struct ContravariantTraversalEmitter {
    pub mapping_expressions: Mappings<PlanId>,
    pub known: KnownTerms,
}

impl ContravariantTraversalEmitter {
    /// The value, transformed from the source to the target.
    pub open spec fn traversed(
        self,
        operation: TraversalOperation,
        value: PlanId,
        source: FieldType,
        target: FieldType,
        depth: nat,
        plan: Seq<Step>,
    ) -> Option<Emission>
        decreases operation, 1nat,
    {
        match operation {
            TraversalOperation::Parameter { parameter } => {
                match self.mapping_expressions.of(parameter) {
                    Some(mapping) => Some(
                        made(plan, mapping).applied(value).as_type(plain_type(target.identity())),
                    ),
                    None => None,
                }
            },
            TraversalOperation::Function { .. } => self.function_traversed(
                operation,
                value,
                source,
                target,
                depth,
                plan,
            ),
            TraversalOperation::UnaryApplication { argument_variance, argument } => {
                self.unary_traversed(
                    argument_variance,
                    *argument,
                    value,
                    source,
                    target,
                    depth,
                    plan,
                )
            },
            TraversalOperation::BinaryApplication { first_variance, arguments } => {
                self.binary_traversed(
                    first_variance,
                    arguments,
                    value,
                    source,
                    target,
                    depth,
                    plan,
                )
            },
            TraversalOperation::Record { fields } => match (source.record(), target.record()) {
                (Some(source_row), Some(target_row)) => match self.updates(
                    fields,
                    fields@.len(),
                    value,
                    source_row,
                    target_row,
                    depth,
                    plan,
                ) {
                    Some((after, updates)) => Some(
                        stepped(
                            after,
                            Step::RecordUpdate {
                                record: value,
                                updates,
                                type_id: target.identity(),
                            },
                        ),
                    ),
                    None => None,
                },
                _ => None,
            },
        }
    }

    /// The function that transforms its argument into the source's, applies the
    /// value to it, and transforms the result into the target's.
    pub open spec fn function_traversed(
        self,
        operation: TraversalOperation,
        value: PlanId,
        source: FieldType,
        target: FieldType,
        depth: nat,
        plan: Seq<Step>,
    ) -> Option<Emission>
        decreases operation, 0nat,
    {
        match (operation, source.arrow(), target.arrow()) {
            (
                TraversalOperation::Function { argument, result },
                Some((source_argument, source_result)),
                Some((target_argument, target_result)),
            ) => {
                let input = stepped(
                    plan,
                    Step::Binder {
                        name: argument_name(depth),
                        type_id: target_argument.identity(),
                    },
                );
                let variable = stepped(input.plan, Step::Variable { binder: input.id });
                let transformed = match argument {
                    Some(argument) => self.traversed(
                        *argument,
                        variable.id,
                        target_argument,
                        source_argument,
                        depth + 1,
                        variable.plan,
                    ),
                    None => Some(variable),
                };
                match transformed {
                    Some(transformed) => {
                        let output = made(transformed.plan, value).applied(transformed.id);
                        let mapped = match result {
                            Some(result) => self.traversed(
                                *result,
                                output.id,
                                source_result,
                                target_result,
                                depth + 1,
                                output.plan,
                            ),
                            None => Some(output),
                        };
                        match mapped {
                            Some(mapped) => {
                                let body = mapped.as_type(plain_type(target_result.identity()));
                                Some(
                                    stepped(
                                        body.plan,
                                        Step::Lambda {
                                            planned: plain_type(target.identity()),
                                            binders: seq![input.id],
                                            body: body.id,
                                        },
                                    ),
                                )
                            },
                            None => None,
                        }
                    },
                    None => None,
                }
            },
            _ => None,
        }
    }

    /// The container, with every element transformed.
    pub open spec fn unary_traversed(
        self,
        argument_variance: Variance,
        argument: TraversalOperation,
        value: PlanId,
        source: FieldType,
        target: FieldType,
        depth: nat,
        plan: Seq<Step>,
    ) -> Option<Emission>
        decreases argument, 3nat,
    {
        let term = match argument_variance {
            Variance::Covariant => self.known.map,
            Variance::Contravariant => self.known.cmap,
        };
        match (source.applied(), target.applied()) {
            (Some((_, source_argument)), Some((_, target_argument))) => {
                let (from, to) = obligation(argument_variance, source_argument, target_argument);
                match (self.transformer(argument, from, to, depth, plan), term) {
                    (Some(transformer), Some(resolution)) => Some(
                        stepped(transformer.plan, Step::Reference { resolution }).applied(
                            transformer.id,
                        ).applied(value).as_type(plain_type(target.identity())),
                    ),
                    _ => None,
                }
            },
            _ => None,
        }
    }

    /// The container of two types, with every element transformed or unchanged.
    pub open spec fn binary_traversed(
        self,
        first_variance: Variance,
        arguments: BinaryApplicationArguments,
        value: PlanId,
        source: FieldType,
        target: FieldType,
        depth: nat,
        plan: Seq<Step>,
    ) -> Option<Emission>
        decreases arguments, 4nat,
    {
        let term = match first_variance {
            Variance::Covariant => self.known.bimap,
            Variance::Contravariant => self.known.dimap,
        };
        match (binary_arguments(source), binary_arguments(target)) {
            (Some((source_first, source_second)), Some((target_first, target_second))) => {
                let (from, to) = obligation(first_variance, source_first, target_first);
                let first = match arguments {
                    BinaryApplicationArguments::First(first) => self.transformer(
                        *first,
                        from,
                        to,
                        depth,
                        plan,
                    ),
                    BinaryApplicationArguments::Second(_) => Some(unchanged(from, to, plan)),
                    BinaryApplicationArguments::Both { first, .. } => self.transformer(
                        *first,
                        from,
                        to,
                        depth,
                        plan,
                    ),
                };
                match first {
                    Some(first) => {
                        let second = match arguments {
                            BinaryApplicationArguments::First(_) => Some(
                                unchanged(source_second, target_second, first.plan),
                            ),
                            BinaryApplicationArguments::Second(second) => self.transformer(
                                *second,
                                source_second,
                                target_second,
                                depth,
                                first.plan,
                            ),
                            BinaryApplicationArguments::Both { second, .. } => self.transformer(
                                *second,
                                source_second,
                                target_second,
                                depth,
                                first.plan,
                            ),
                        };
                        match (second, term) {
                            (Some(second), Some(resolution)) => Some(
                                stepped(second.plan, Step::Reference { resolution }).applied(
                                    first.id,
                                ).applied(second.id).applied(value).as_type(
                                    plain_type(target.identity()),
                                ),
                            ),
                            _ => None,
                        }
                    },
                    None => None,
                }
            },
            _ => None,
        }
    }

    /// A function from the source to the target.
    pub open spec fn transformer(
        self,
        operation: TraversalOperation,
        source: FieldType,
        target: FieldType,
        depth: nat,
        plan: Seq<Step>,
    ) -> Option<Emission>
        decreases operation, 2nat,
    {
        let input = stepped(plan, Step::Binder { name: "element"@, type_id: source.identity() });
        let value = stepped(input.plan, Step::Variable { binder: input.id });
        match self.traversed(operation, value.id, source, target, depth, value.plan) {
            Some(body) => Some(
                stepped(
                    body.plan,
                    Step::Lambda {
                        planned: arrow_type(source.identity(), target.identity()),
                        binders: seq![input.id],
                        body: body.id,
                    },
                ),
            ),
            None => None,
        }
    }

    /// A record's field, transformed.
    pub open spec fn field_traversed(
        self,
        field: RecordFieldRecipe,
        value: PlanId,
        source_row: Seq<RowField>,
        target_row: Seq<RowField>,
        depth: nat,
        plan: Seq<Step>,
    ) -> Option<Emission>
        decreases field, 0nat,
    {
        match (row_field(source_row, field.label@), row_field(target_row, field.label@)) {
            (Some(source), Some(target)) => {
                let accessed = stepped(
                    plan,
                    Step::RecordAccess {
                        record: value,
                        label: field.label,
                        type_id: source.identity(),
                    },
                );
                self.traversed(
                    field.operation,
                    accessed.id,
                    source,
                    target,
                    depth,
                    accessed.plan,
                )
            },
            _ => None,
        }
    }

    /// The updates of a record's first fields.
    pub open spec fn updates(
        self,
        fields: Vec<RecordFieldRecipe>,
        count: nat,
        value: PlanId,
        source_row: Seq<RowField>,
        target_row: Seq<RowField>,
        depth: nat,
        plan: Seq<Step>,
    ) -> Option<(Seq<Step>, Seq<(String, PlanId)>)>
        decreases fields, count,
    {
        if count == 0 || count > fields@.len() {
            Some((plan, Seq::empty()))
        } else {
            match self.updates(
                fields,
                (count - 1) as nat,
                value,
                source_row,
                target_row,
                depth,
                plan,
            ) {
                Some((before, updates)) => match self.field_traversed(
                    fields@[count - 1],
                    value,
                    source_row,
                    target_row,
                    depth,
                    before,
                ) {
                    Some(updated) => Some(
                        (updated.plan, updates.push((fields@[count - 1].label, updated.id))),
                    ),
                    None => None,
                },
                None => None,
            }
        }
    }

    proof fn lemma_updates_fail(
        self,
        fields: Vec<RecordFieldRecipe>,
        count: nat,
        more: nat,
        value: PlanId,
        source_row: Seq<RowField>,
        target_row: Seq<RowField>,
        depth: nat,
        plan: Seq<Step>,
    )
        requires
            count <= more <= fields@.len(),
            self.updates(fields, count, value, source_row, target_row, depth, plan) is None,
        ensures
            self.updates(fields, more, value, source_row, target_row, depth, plan) is None,
        decreases more,
    {
        if count < more {
            self.lemma_updates_fail(
                fields,
                count,
                (more - 1) as nat,
                value,
                source_row,
                target_row,
                depth,
                plan,
            );
        }
    }
}

/// Both arguments of a type that is applied twice.
pub open spec fn binary_arguments(field: FieldType) -> Option<(FieldType, FieldType)> {
    match field.applied() {
        Some((function, second)) => match function.applied() {
            Some((_, first)) => Some((first, second)),
            None => None,
        },
        None => None,
    }
}

/// Both arguments of a type that is applied twice.
pub fn decompose_binary(field: &FieldType) -> (parts: Option<(&FieldType, &FieldType)>)
    ensures
        match parts {
            Some((first, second)) => binary_arguments(*field) == Some((*first, *second)),
            None => binary_arguments(*field) is None,
        },
{
    let (function, second) = field.decompose_type_application()?;
    let (_, first) = function.decompose_type_application()?;
    Some((first, second))
}

/// A function that leaves its argument unchanged.
pub open spec fn unchanged(source: FieldType, target: FieldType, plan: Seq<Step>) -> Emission {
    let input = stepped(plan, Step::Binder { name: "unchanged"@, type_id: source.identity() });
    let body = stepped(input.plan, Step::Variable { binder: input.id }).as_type(
        plain_type(target.identity()),
    );
    stepped(
        body.plan,
        Step::Lambda {
            planned: arrow_type(source.identity(), target.identity()),
            binders: seq![input.id],
            body: body.id,
        },
    )
}

impl ContravariantTraversalEmitter {
    /// What the emitter and its arguments have to be for a plan.
    pub open spec fn ready(self, plan: Seq<Step>, value: PlanId, depth: nat) -> bool {
        &&& in_order(plan)
        &&& self.mapping_expressions.made(plan)
        &&& makes(plan, value, Sort::Expression)
        &&& depth <= plan.len()
    }

    /// What the map is made of.
    pub open spec fn shaped(self, plan: Seq<Step>) -> Maps {
        Maps {
            mappings: mapping_shapes(self.mapping_expressions, plan),
            known: self.known,
        }
    }

    proof fn lemma_shaped(self, before: Seq<Step>, after: Seq<Step>)
        requires
            continues(before, after),
            self.mapping_expressions.made(before),
        ensures
            self.shaped(after) == self.shaped(before),
    {
        match self.mapping_expressions {
            Mappings::Contravariant(function) => {
                lemma_shape_continues(before, after, function);
            },
            Mappings::Profunctor { first, second } => {
                lemma_shape_continues(before, after, first);
                lemma_shape_continues(before, after, second);
            },
        }
    }

    /// Emits the value, transformed from the source to the target.
    pub fn emit_traversal(
        self,
        plan: &mut Plan,
        operation: &TraversalOperation,
        value: PlanId,
        source: &FieldType,
        target: &FieldType,
        depth: usize,
    ) -> (traversed: Option<PlanId>)
        requires
            self.ready(old(plan)@, value, depth as nat),
        ensures
            emitted(
                old(plan)@,
                final(plan)@,
                self.traversed(*operation, value, *source, *target, depth as nat, old(plan)@),
                traversed,
            ),
            traversed matches Some(id) ==> self.shaped(old(plan)@).maps(
                *operation,
                shape(old(plan)@, value),
                shape(final(plan)@, id),
            ),
        decreases *operation, 1nat,
    {
        match operation {
            TraversalOperation::Parameter { parameter } => {
                let mapping = self.mapping_expressions.mapping_for(*parameter)?;
                let mapped = plan.apply(mapping, value);
                let mapped = plan.subtype(mapped, PlanType::plain(target.id()));
                assert(self.shaped(old(plan)@).maps(
                    *operation,
                    shape(old(plan)@, value),
                    shape(plan@, mapped),
                ));
                Some(mapped)
            },
            TraversalOperation::Function { .. } => self.emit_function(
                plan,
                operation,
                value,
                source,
                target,
                depth,
            ),
            TraversalOperation::UnaryApplication { argument_variance, argument } => {
                let traversed = self.emit_unary(
                    plan,
                    *argument_variance,
                    argument,
                    value,
                    source,
                    target,
                    depth,
                )?;
                assert(self.shaped(old(plan)@).maps(
                    *operation,
                    shape(old(plan)@, value),
                    shape(plan@, traversed),
                ));
                Some(traversed)
            },
            TraversalOperation::BinaryApplication { first_variance, arguments } => {
                let traversed = self.emit_binary(
                    plan,
                    *first_variance,
                    arguments,
                    value,
                    source,
                    target,
                    depth,
                )?;
                assert(self.shaped(old(plan)@).maps(
                    *operation,
                    shape(old(plan)@, value),
                    shape(plan@, traversed),
                ));
                Some(traversed)
            },
            TraversalOperation::Record { fields } => {
                let source_row = source.extract_record_row()?;
                let target_row = target.extract_record_row()?;
                let updates = self.emit_updates(
                    plan,
                    fields,
                    value,
                    source_row,
                    target_row,
                    depth,
                )?;
                let _ = plan.len();
                proof {
                    let all = updates@;
                    assert forall|i: int| 0 <= i < update_values(all).len() implies (
                    #[trigger] update_values(all)[i]).raw < plan@.len() by {
                        assert(makes(plan@, all[i].1, Sort::Expression));
                    }
                    lemma_updated(plan@, value, all, target.identity());
                    lemma_shape_continues(old(plan)@, plan@, value);
                    assert(self.shaped(old(plan)@).updates(
                        *fields,
                        fields@.len(),
                        shape(old(plan)@, value),
                        update_labels(all),
                        shapes(plan@, update_values(all)),
                    ));
                }
                let ghost labels = update_labels(updates@);
                let ghost values = shapes(plan@, update_values(updates@));
                let updated = plan.push(
                    Instruction::RecordUpdate { record: value, updates, type_id: target.id() },
                );
                assert(shape(plan@, updated) == updated_of(
                    shape(old(plan)@, value),
                    labels,
                    values,
                ));
                assert(self.shaped(old(plan)@).maps(
                    *operation,
                    shape(old(plan)@, value),
                    shape(plan@, updated),
                ));
                Some(updated)
            },
        }
    }

    #[verifier::rlimit(40)]
    fn emit_function(
        self,
        plan: &mut Plan,
        operation: &TraversalOperation,
        value: PlanId,
        source: &FieldType,
        target: &FieldType,
        depth: usize,
    ) -> (traversed: Option<PlanId>)
        requires
            self.ready(old(plan)@, value, depth as nat),
        ensures
            emitted(
                old(plan)@,
                final(plan)@,
                self.function_traversed(
                    *operation,
                    value,
                    *source,
                    *target,
                    depth as nat,
                    old(plan)@,
                ),
                traversed,
            ),
            traversed matches Some(id) ==> self.shaped(old(plan)@).maps(
                *operation,
                shape(old(plan)@, value),
                shape(final(plan)@, id),
            ),
        decreases *operation, 0nat,
    {
        let TraversalOperation::Function { argument, result } = operation else {
            return None;
        };
        let (source_argument, source_result) = source.decompose_function()?;
        let (target_argument, target_result) = target.decompose_function()?;
        let name = if depth == 0 {
            "argument".to_owned()
        } else {
            numbered_name("argument", depth)
        };
        let input = plan.variable_binder(name.as_str(), target_argument.id());
        let ghost begun = plan@;
        let variable = plan.variable(input);
        let _ = plan.len();
        proof {
            self.lemma_shaped(old(plan)@, plan@);
        }
        let transformed = match argument {
            Some(argument) => self.emit_traversal(
                plan,
                argument,
                variable,
                target_argument,
                source_argument,
                depth + 1,
            ),
            None => Some(variable),
        };
        let transformed = transformed?;
        let ghost given = shape(plan@, transformed);
        proof {
            lemma_shape_continues(old(plan)@, plan@, value);
        }
        let output = plan.apply(value, transformed);
        proof {
            self.lemma_shaped(old(plan)@, plan@);
        }
        let mapped = match result {
            Some(result) => self.emit_traversal(
                plan,
                result,
                output,
                source_result,
                target_result,
                depth + 1,
            ),
            None => Some(output),
        };
        let mapped = mapped?;
        let body = plan.subtype(mapped, PlanType::plain(target_result.id()));
        proof {
            let maps = self.shaped(old(plan)@);
            let inner = shape(plan@, body);
            assert(maps.maps_optionally(*argument, variable_of(input), given));
            assert(maps.maps_optionally(
                *result,
                apply(shape(old(plan)@, value), given),
                inner,
            ));
            maps.lemma_function(
                *argument,
                *result,
                shape(old(plan)@, value),
                input,
                given,
                inner,
            );
            lemma_shape_continues(begun, plan@, input);
        }
        let ghost inner = shape(plan@, body);
        let traversed = plan.unary_lambda(PlanType::plain(target.id()), input, body);
        assert(shape(plan@, traversed) == lambda_of(input, inner));
        Some(traversed)
    }

    fn emit_unary(
        self,
        plan: &mut Plan,
        argument_variance: Variance,
        argument: &TraversalOperation,
        value: PlanId,
        source: &FieldType,
        target: &FieldType,
        depth: usize,
    ) -> (traversed: Option<PlanId>)
        requires
            self.ready(old(plan)@, value, depth as nat),
        ensures
            emitted(
                old(plan)@,
                final(plan)@,
                self.unary_traversed(
                    argument_variance,
                    *argument,
                    value,
                    *source,
                    *target,
                    depth as nat,
                    old(plan)@,
                ),
                traversed,
            ),
            traversed matches Some(id) ==> exists|function: Shape|
                {
                    &&& self.shaped(old(plan)@).transforms(*argument, function)
                    &&& unary_term(self.known, argument_variance) is Some
                    &&& shape(final(plan)@, id) == apply(
                        #[trigger] apply(term_of(unary_term(self.known, argument_variance)), function),
                        shape(old(plan)@, value),
                    )
                },
        decreases *argument, 3nat,
    {
        let (_, source_argument) = source.decompose_type_application()?;
        let (_, target_argument) = target.decompose_type_application()?;
        // A covariant edge transforms the source argument into the target argument. A
        // contravariant edge reverses that obligation.
        let transformer = match argument_variance {
            Variance::Covariant => self.emit_transformer(
                plan,
                argument,
                source_argument,
                target_argument,
                depth,
            ),
            Variance::Contravariant => self.emit_transformer(
                plan,
                argument,
                target_argument,
                source_argument,
                depth,
            ),
        };
        let transformer = transformer?;
        let term = match argument_variance {
            Variance::Covariant => self.known.map,
            Variance::Contravariant => self.known.cmap,
        };
        let term = term?;
        let ghost mapper = shape(plan@, transformer);
        let ghost reached = plan@;
        let reference = plan.term_reference(term);
        proof {
            assert(self.shaped(old(plan)@).transforms(*argument, mapper));
            lemma_shape_continues(reached, plan@, transformer);
        }
        let function = plan.apply(reference, transformer);
        proof {
            lemma_shape_continues(old(plan)@, plan@, value);
        }
        let mapped = plan.apply(function, value);
        Some(plan.subtype(mapped, PlanType::plain(target.id())))
    }

    #[verifier::rlimit(60)]
    fn emit_binary(
        self,
        plan: &mut Plan,
        first_variance: Variance,
        arguments: &BinaryApplicationArguments,
        value: PlanId,
        source: &FieldType,
        target: &FieldType,
        depth: usize,
    ) -> (traversed: Option<PlanId>)
        requires
            self.ready(old(plan)@, value, depth as nat),
        ensures
            emitted(
                old(plan)@,
                final(plan)@,
                self.binary_traversed(
                    first_variance,
                    *arguments,
                    value,
                    *source,
                    *target,
                    depth as nat,
                    old(plan)@,
                ),
                traversed,
            ),
            traversed matches Some(id) ==> exists|first: Shape, second: Shape|
                {
                    &&& binary_term(self.known, first_variance) is Some
                    &&& self.shaped(old(plan)@).transforms_first(*arguments, first)
                    &&& self.shaped(old(plan)@).transforms_second(*arguments, second)
                    &&& shape(final(plan)@, id) == apply(
                        #[trigger] apply(
                            apply(term_of(binary_term(self.known, first_variance)), first),
                            second,
                        ),
                        shape(old(plan)@, value),
                    )
                },
        decreases *arguments, 4nat,
    {
        let (source_first, source_second) = decompose_binary(source)?;
        let (target_first, target_second) = decompose_binary(target)?;
        // Bifunctors transform both arguments covariantly. Profunctors reverse only
        // the first obligation.
        let (from, to) = match first_variance {
            Variance::Covariant => (source_first, target_first),
            Variance::Contravariant => (target_first, source_first),
        };
        let first = match arguments {
            BinaryApplicationArguments::First(first) => self.emit_transformer(
                plan,
                first,
                from,
                to,
                depth,
            ),
            BinaryApplicationArguments::Second(_) => Some(emit_identity(plan, from, to)),
            BinaryApplicationArguments::Both { first, .. } => self.emit_transformer(
                plan,
                first,
                from,
                to,
                depth,
            ),
        };
        let first = first?;
        let ghost left = shape(plan@, first);
        let ghost halfway = plan@;
        proof {
            assert(self.shaped(old(plan)@).transforms_first(*arguments, left));
            self.lemma_shaped(old(plan)@, plan@);
        }
        let second = match arguments {
            BinaryApplicationArguments::First(_) => Some(
                emit_identity(plan, source_second, target_second),
            ),
            BinaryApplicationArguments::Second(second) => self.emit_transformer(
                plan,
                second,
                source_second,
                target_second,
                depth,
            ),
            BinaryApplicationArguments::Both { second, .. } => self.emit_transformer(
                plan,
                second,
                source_second,
                target_second,
                depth,
            ),
        };
        let second = second?;
        let ghost right = shape(plan@, second);
        let ghost reached = plan@;
        assert(self.shaped(old(plan)@).transforms_second(*arguments, right));
        let term = match first_variance {
            Variance::Covariant => self.known.bimap,
            Variance::Contravariant => self.known.dimap,
        };
        let term = term?;
        let reference = plan.term_reference(term);
        proof {
            lemma_shape_continues(halfway, plan@, first);
        }
        let function = plan.apply(reference, first);
        proof {
            lemma_shape_continues(reached, plan@, second);
        }
        let function = plan.apply(function, second);
        proof {
            lemma_shape_continues(old(plan)@, plan@, value);
        }
        let mapped = plan.apply(function, value);
        let mapped = plan.subtype(mapped, PlanType::plain(target.id()));
        assert(shape(plan@, mapped) == apply(
            apply(apply(term_of(binary_term(self.known, first_variance)), left), right),
            shape(old(plan)@, value),
        ));
        Some(mapped)
    }

    fn emit_transformer(
        self,
        plan: &mut Plan,
        operation: &TraversalOperation,
        source: &FieldType,
        target: &FieldType,
        depth: usize,
    ) -> (transformer: Option<PlanId>)
        requires
            in_order(old(plan)@),
            self.mapping_expressions.made(old(plan)@),
            depth <= old(plan)@.len(),
        ensures
            emitted(
                old(plan)@,
                final(plan)@,
                self.transformer(*operation, *source, *target, depth as nat, old(plan)@),
                transformer,
            ),
            transformer matches Some(id) ==> self.shaped(old(plan)@).transforms(
                *operation,
                shape(final(plan)@, id),
            ),
        decreases *operation, 2nat,
    {
        let input = plan.variable_binder("element", source.id());
        let ghost begun = plan@;
        let value = plan.variable(input);
        proof {
            self.lemma_shaped(old(plan)@, plan@);
        }
        let body = self.emit_traversal(plan, operation, value, source, target, depth)?;
        proof {
            lemma_shape_continues(begun, plan@, input);
            assert(self.shaped(old(plan)@).maps(
                *operation,
                variable_of(input),
                shape(plan@, body),
            ));
        }
        let ghost inner = shape(plan@, body);
        let planned = PlanType::arrow(source.id(), target.id());
        let transformer = plan.unary_lambda(planned, input, body);
        assert(shape(plan@, transformer) == lambda_of(input, inner));
        Some(transformer)
    }

    fn emit_field(
        self,
        plan: &mut Plan,
        field: &RecordFieldRecipe,
        value: PlanId,
        source_row: &Vec<RowField>,
        target_row: &Vec<RowField>,
        depth: usize,
    ) -> (updated: Option<PlanId>)
        requires
            self.ready(old(plan)@, value, depth as nat),
        ensures
            emitted(
                old(plan)@,
                final(plan)@,
                self.field_traversed(
                    *field,
                    value,
                    source_row@,
                    target_row@,
                    depth as nat,
                    old(plan)@,
                ),
                updated,
            ),
            updated matches Some(id) ==> self.shaped(old(plan)@).maps_field(
                *field,
                shape(old(plan)@, value),
                shape(final(plan)@, id),
            ),
        decreases *field, 0nat,
    {
        let source = find_row_field(source_row, field.label.as_str())?;
        let target = find_row_field(target_row, field.label.as_str())?;
        let accessed = plan.record_access(value, &field.label, source.id());
        proof {
            self.lemma_shaped(old(plan)@, plan@);
        }
        self.emit_traversal(plan, &field.operation, accessed, source, target, depth)
    }

    fn emit_updates(
        self,
        plan: &mut Plan,
        fields: &Vec<RecordFieldRecipe>,
        value: PlanId,
        source_row: &Vec<RowField>,
        target_row: &Vec<RowField>,
        depth: usize,
    ) -> (updates: Option<Vec<(String, PlanId)>>)
        requires
            self.ready(old(plan)@, value, depth as nat),
        ensures
            ({
                let expected = self.updates(
                    *fields,
                    fields@.len(),
                    value,
                    source_row@,
                    target_row@,
                    depth as nat,
                    old(plan)@,
                );
                match updates {
                    Some(updates) => {
                        &&& expected == Some((final(plan)@, updates@))
                        &&& in_order(final(plan)@)
                        &&& continues(old(plan)@, final(plan)@)
                        &&& makes_updates(final(plan)@, updates@)
                        &&& updates@.len() == fields@.len()
                        &&& self.shaped(old(plan)@).updates(
                            *fields,
                            fields@.len(),
                            shape(old(plan)@, value),
                            update_labels(updates@),
                            shapes(final(plan)@, update_values(updates@)),
                        )
                    },
                    None => expected is None,
                }
            }),
        decreases *fields, 0nat,
    {
        let mut updates: Vec<(String, PlanId)> = Vec::new();
        let mut index: usize = 0;
        while index < fields.len()
            invariant
                index <= fields.len(),
                continues(old(plan)@, plan@),
                self.ready(plan@, value, depth as nat),
                makes_updates(plan@, updates@),
                self.updates(
                    *fields,
                    index as nat,
                    value,
                    source_row@,
                    target_row@,
                    depth as nat,
                    old(plan)@,
                ) == Some((plan@, updates@)),
                self.mapping_expressions.made(old(plan)@),
                makes(old(plan)@, value, Sort::Expression),
                updates@.len() == index,
                self.shaped(old(plan)@).updates(
                    *fields,
                    index as nat,
                    shape(old(plan)@, value),
                    update_labels(updates@),
                    shapes(plan@, update_values(updates@)),
                ),
            decreases fields.len() - index,
        {
            let ghost before = plan@;
            let ghost known = updates@;
            proof {
                self.lemma_shaped(old(plan)@, plan@);
                lemma_shape_continues(old(plan)@, plan@, value);
            }
            let updated = self.emit_field(
                plan,
                &fields[index],
                value,
                source_row,
                target_row,
                depth,
            );
            if updated.is_none() {
                proof {
                    self.lemma_updates_fail(
                        *fields,
                        index as nat + 1,
                        fields@.len(),
                        value,
                        source_row@,
                        target_row@,
                        depth as nat,
                        old(plan)@,
                    );
                }
                return None;
            }
            let updated = updated?;
            updates.push((fields[index].label.clone(), updated));
            proof {
                let maps = self.shaped(old(plan)@);
                let whole = shape(old(plan)@, value);
                let labels = update_labels(known);
                let values = shapes(before, update_values(known));
                assert forall|i: int| 0 <= i < update_values(known).len() implies (
                #[trigger] update_values(known)[i]).raw < before.len() by {
                    assert(makes(before, known[i].1, Sort::Expression));
                }
                lemma_shapes_continue(before, plan@, update_values(known));
                maps.lemma_updates_push(
                    *fields,
                    index as nat,
                    whole,
                    labels,
                    values,
                    fields@[index as int].label,
                    shape(plan@, updated),
                );
                assert(update_labels(updates@) =~= labels.push(fields@[index as int].label));
                assert(update_values(updates@) =~= update_values(known).push(updated));
                assert(shapes(plan@, update_values(updates@)) =~= values.push(
                    shape(plan@, updated),
                ));
            }
            index += 1;
        }
        Some(updates)
    }
}

fn emit_identity(plan: &mut Plan, source: &FieldType, target: &FieldType) -> (identity: PlanId)
    requires
        in_order(old(plan)@),
    ensures
        in_order(final(plan)@),
        continues(old(plan)@, final(plan)@),
        makes(final(plan)@, identity, Sort::Expression),
        made(final(plan)@, identity) == unchanged(*source, *target, old(plan)@),
        is_identity(shape(final(plan)@, identity)),
{
    let input = plan.variable_binder("unchanged", source.id());
    let ghost begun = plan@;
    let value = plan.variable(input);
    let body = plan.subtype(value, PlanType::plain(target.id()));
    proof {
        lemma_shape_continues(begun, plan@, input);
        assert(shape(plan@, body) == variable_of(input));
    }
    let identity = plan.unary_lambda(PlanType::arrow(source.id(), target.id()), input, body);
    assert(shape(plan@, identity) == lambda_of(input, variable_of(input)));
    identity
}

// Constructors

/// The fields of a constructor: binders of the source's, values of the target's.
pub struct TraversedFields {
    pub plan: Seq<Step>,
    pub binders: Seq<PlanId>,
    pub values: Seq<PlanId>,
}

impl ContravariantTraversalEmitter {
    /// The first fields of a constructor. Fields without an operation stay as they
    /// are.
    pub open spec fn fields_traversed(
        self,
        operations: Seq<Option<TraversalOperation>>,
        count: nat,
        sources: Seq<FieldType>,
        targets: Seq<FieldType>,
        plan: Seq<Step>,
    ) -> Option<TraversedFields>
        decreases count,
    {
        if count == 0 || count > operations.len() {
            Some(TraversedFields { plan, binders: Seq::empty(), values: Seq::empty() })
        } else {
            let last = count - 1;
            match self.fields_traversed(operations, last as nat, sources, targets, plan) {
                Some(before) => {
                    let binder = stepped(
                        before.plan,
                        Step::Binder {
                            name: numbered("field"@, last as nat),
                            type_id: sources[last].identity(),
                        },
                    );
                    let variable = stepped(binder.plan, Step::Variable { binder: binder.id });
                    let value = match operations[last] {
                        Some(operation) => self.traversed(
                            operation,
                            variable.id,
                            sources[last],
                            targets[last],
                            0,
                            variable.plan,
                        ),
                        None => Some(variable),
                    };
                    match value {
                        Some(value) => Some(
                            TraversedFields {
                                plan: value.plan,
                                binders: before.binders.push(binder.id),
                                values: before.values.push(value.id),
                            },
                        ),
                        None => None,
                    }
                },
                None => None,
            }
        }
    }

    proof fn lemma_fields_fail(
        self,
        operations: Seq<Option<TraversalOperation>>,
        count: nat,
        more: nat,
        sources: Seq<FieldType>,
        targets: Seq<FieldType>,
        plan: Seq<Step>,
    )
        requires
            count <= more <= operations.len(),
            self.fields_traversed(operations, count, sources, targets, plan) is None,
        ensures
            self.fields_traversed(operations, more, sources, targets, plan) is None,
        decreases more,
    {
        if count < more {
            self.lemma_fields_fail(
                operations,
                count,
                (more - 1) as nat,
                sources,
                targets,
                plan,
            );
        }
    }

    fn emit_fields(
        self,
        plan: &mut Plan,
        operations: &Vec<Option<TraversalOperation>>,
        sources: &Vec<FieldType>,
        targets: &Vec<FieldType>,
    ) -> (fields: Option<(Vec<PlanId>, Vec<PlanId>)>)
        requires
            in_order(old(plan)@),
            self.mapping_expressions.made(old(plan)@),
            operations@.len() == sources@.len() == targets@.len(),
        ensures
            ({
                let expected = self.fields_traversed(
                    operations@,
                    operations@.len(),
                    sources@,
                    targets@,
                    old(plan)@,
                );
                match fields {
                    Some((binders, values)) => {
                        &&& expected == Some(
                            TraversedFields {
                                plan: final(plan)@,
                                binders: binders@,
                                values: values@,
                            },
                        )
                        &&& in_order(final(plan)@)
                        &&& continues(old(plan)@, final(plan)@)
                        &&& makes_all(final(plan)@, binders@, Sort::Binder)
                        &&& makes_all(final(plan)@, values@, Sort::Expression)
                        &&& binders@.len() == operations@.len()
                        &&& shapes(final(plan)@, binders@) == bounds(binders@)
                        &&& self.shaped(old(plan)@).maps_all(
                            operations@,
                            binders@,
                            shapes(final(plan)@, values@),
                        )
                    },
                    None => expected is None,
                }
            }),
    {
        let mut binders: Vec<PlanId> = Vec::new();
        let mut values: Vec<PlanId> = Vec::new();
        let mut index: usize = 0;
        assert(shapes(plan@, binders@) =~= bounds(binders@));
        while index < operations.len()
            invariant
                index <= operations.len(),
                operations@.len() == sources@.len() == targets@.len(),
                continues(old(plan)@, plan@),
                in_order(plan@),
                self.mapping_expressions.made(plan@),
                makes_all(plan@, binders@, Sort::Binder),
                makes_all(plan@, values@, Sort::Expression),
                self.fields_traversed(
                    operations@,
                    index as nat,
                    sources@,
                    targets@,
                    old(plan)@,
                ) == Some(
                    TraversedFields { plan: plan@, binders: binders@, values: values@ },
                ),
                self.mapping_expressions.made(old(plan)@),
                binders@.len() == index,
                shapes(plan@, binders@) == bounds(binders@),
                self.shaped(old(plan)@).maps_all(
                    operations@,
                    binders@,
                    shapes(plan@, values@),
                ),
            decreases operations.len() - index,
        {
            let ghost before = plan@;
            let ghost known = (binders@, values@);
            let name = numbered_name("field", index);
            let binder = plan.variable_binder(name.as_str(), sources[index].id());
            let ghost begun = plan@;
            let variable = plan.variable(binder);
            proof {
                self.lemma_shaped(old(plan)@, plan@);
            }
            let value = match &operations[index] {
                Some(operation) => self.emit_traversal(
                    plan,
                    operation,
                    variable,
                    &sources[index],
                    &targets[index],
                    0,
                ),
                None => Some(variable),
            };
            if value.is_none() {
                proof {
                    self.lemma_fields_fail(
                        operations@,
                        index as nat + 1,
                        operations@.len(),
                        sources@,
                        targets@,
                        old(plan)@,
                    );
                }
                return None;
            }
            let value = value?;
            binders.push(binder);
            values.push(value);
            proof {
                let maps = self.shaped(old(plan)@);
                lemma_made_within(before, known.0, Sort::Binder);
                lemma_made_within(before, known.1, Sort::Expression);
                lemma_shapes_continue(before, plan@, known.0);
                lemma_shapes_continue(before, plan@, known.1);
                lemma_shape_continues(begun, plan@, binder);
                lemma_bounds_push(before, plan@, known.0, known.0, binder, binder);
                assert(!known.0.contains(binder)) by {
                    if known.0.contains(binder) {
                        let i = choose|i: int| 0 <= i < known.0.len() && known.0[i] == binder;
                        assert(known.0[i].raw < before.len());
                    }
                }
                assert(maps.maps_one(operations@[index as int], binder, shape(plan@, value)));
                maps.lemma_maps_push(
                    operations@,
                    known.0,
                    shapes(before, known.1),
                    binder,
                    shape(plan@, value),
                );
                assert(shapes(plan@, values@) =~= shapes(plan@, known.1).push(
                    shape(plan@, value),
                ));
            }
            index += 1;
        }
        Some((binders, values))
    }
}

/// A member whose map is derived.
#[derive(Clone, Copy, Debug)]
pub struct DecodedTraversalMember {
    pub function_type: TypeId,
    pub mappings: Mappings<TypeId>,
    pub data_file: FileId,
    pub source_type: TypeId,
    pub target_type: TypeId,
}

/// How many arguments the map takes: one mapping for each parameter, and the value.
pub fn traversal_argument_count(traversal: TraversalKind) -> (count: usize)
    ensures
        count == (match traversal {
            TraversalKind::Contravariant => 2int,
            TraversalKind::Profunctor => 3int,
        }),
{
    match traversal {
        TraversalKind::Contravariant => 2,
        TraversalKind::Profunctor => 3,
    }
}

/// Reads the signature of the map: from the mappings and the source to the target.
/// None where it has another number of arguments.
pub fn decode(
    traversal: TraversalKind,
    arguments: &Vec<TypeId>,
    result: TypeId,
    function_type: TypeId,
    data_file: FileId,
) -> (decoded: Option<DecodedTraversalMember>)
    ensures
        decoded == (match traversal {
            TraversalKind::Contravariant => if arguments@.len() == 2 {
                Some(
                    DecodedTraversalMember {
                        function_type,
                        mappings: Mappings::Contravariant(arguments@[0]),
                        data_file,
                        source_type: arguments@[1],
                        target_type: result,
                    },
                )
            } else {
                None
            },
            TraversalKind::Profunctor => if arguments@.len() == 3 {
                Some(
                    DecodedTraversalMember {
                        function_type,
                        mappings: Mappings::Profunctor {
                            first: arguments@[0],
                            second: arguments@[1],
                        },
                        data_file,
                        source_type: arguments@[2],
                        target_type: result,
                    },
                )
            } else {
                None
            },
        }),
{
    let count: usize = traversal_argument_count(traversal);
    if arguments.len() != count {
        return None;
    }
    let mappings = match traversal {
        TraversalKind::Contravariant => Mappings::Contravariant(arguments[0]),
        TraversalKind::Profunctor => Mappings::Profunctor {
            first: arguments[0],
            second: arguments[1],
        },
    };
    Some(
        DecodedTraversalMember {
            function_type,
            mappings,
            data_file,
            source_type: arguments[count - 1],
            target_type: result,
        },
    )
}

/// The types of a constructor's fields before and after the map.
#[derive(Debug)]
pub struct FieldTypes {
    pub sources: Vec<FieldType>,
    pub targets: Vec<FieldType>,
}

/// The alternative of a map for one constructor, which rebuilds it; none where the
/// fields do not fit the recipe.
pub open spec fn alternative_traversed(
    member: DecodedTraversalMember,
    emitter: ContravariantTraversalEmitter,
    constructor: ConstructorRecipe,
    types: FieldTypes,
    plan: Seq<Step>,
) -> Option<Emission> {
    let resolution = (member.data_file, constructor.constructor_id);
    if types.sources@.len() != types.targets@.len() || types.sources@.len()
        != constructor.fields@.len() {
        None
    } else {
        match emitter.fields_traversed(
            constructor.fields@,
            constructor.fields@.len(),
            types.sources@,
            types.targets@,
            plan,
        ) {
            Some(fields) => {
                let pattern = stepped(
                    fields.plan,
                    Step::ConstructorPattern {
                        name: "constructor"@,
                        type_id: member.source_type,
                        resolution,
                        arguments: fields.binders,
                    },
                );
                let reference = stepped(pattern.plan, Step::Reference { resolution });
                let rebuilt = applied_all(
                    reference,
                    fields.values,
                    fields.values.len(),
                ).as_type(plain_type(member.target_type));
                Some(
                    stepped(
                        rebuilt.plan,
                        Step::Alternative { pattern: pattern.id, body: rebuilt.id },
                    ),
                )
            },
            None => None,
        }
    }
}

/// Emits the alternative of a map for one constructor.
pub fn emit_traversal_alternative(
    plan: &mut Plan,
    member: DecodedTraversalMember,
    emitter: ContravariantTraversalEmitter,
    constructor: &ConstructorRecipe,
    types: &FieldTypes,
) -> (alternative: Option<PlanId>)
    requires
        in_order(old(plan)@),
        emitter.mapping_expressions.made(old(plan)@),
    ensures
        emitted_as(
            old(plan)@,
            final(plan)@,
            alternative_traversed(member, emitter, *constructor, *types, old(plan)@),
            alternative,
            Sort::Alternative,
        ),
        alternative matches Some(id) ==> (super::shapes::alternative(final(plan)@, id) matches Some(
            (pattern, body),
        ) && emitter.shaped(old(plan)@).rebuilds(
            (member.data_file, constructor.constructor_id),
            constructor.fields@,
            shape(final(plan)@, pattern),
            shape(final(plan)@, body),
        )),
{
    if types.sources.len() != types.targets.len() || types.sources.len()
        != constructor.fields.len() {
        return None;
    }
    let resolution = (member.data_file, constructor.constructor_id);
    let (binders, values) = emitter.emit_fields(
        plan,
        &constructor.fields,
        &types.sources,
        &types.targets,
    )?;
    let ghost bound = plan@;
    let ghost names = binders@;
    let pattern = plan.constructor_pattern(
        "constructor",
        member.source_type,
        resolution,
        binders,
    );
    let ghost matched = plan@;
    let reference = plan.term_reference(resolution);
    proof {
        lemma_made_within(bound, values@, Sort::Expression);
        lemma_shapes_continue(bound, plan@, values@);
    }
    let rebuilt = apply_all(plan, reference, &values);
    let rebuilt = plan.subtype(rebuilt, PlanType::plain(member.target_type));
    let ghost reached = plan@;
    let alternative = plan.alternative(pattern, rebuilt);
    proof {
        lemma_shape_continues(matched, plan@, pattern);
        lemma_shape_continues(reached, plan@, rebuilt);
        assert(emitter.shaped(old(plan)@).maps_all(
            constructor.fields@,
            names,
            shapes(bound, values@),
        ));
    }
    Some(alternative)
}

/// The alternatives of a map for the first constructors.
pub open spec fn alternatives_traversed(
    member: DecodedTraversalMember,
    emitter: ContravariantTraversalEmitter,
    constructors: Seq<ConstructorRecipe>,
    types: Seq<FieldTypes>,
    count: nat,
    plan: Seq<Step>,
) -> Option<(Seq<Step>, Seq<PlanId>)>
    decreases count,
{
    if count == 0 || count > constructors.len() {
        Some((plan, Seq::empty()))
    } else {
        match alternatives_traversed(
            member,
            emitter,
            constructors,
            types,
            (count - 1) as nat,
            plan,
        ) {
            Some((before, alternatives)) => match alternative_traversed(
                member,
                emitter,
                constructors[count - 1],
                types[count - 1],
                before,
            ) {
                Some(alternative) => Some((alternative.plan, alternatives.push(alternative.id))),
                None => None,
            },
            None => None,
        }
    }
}

proof fn lemma_alternatives_fail(
    member: DecodedTraversalMember,
    emitter: ContravariantTraversalEmitter,
    constructors: Seq<ConstructorRecipe>,
    types: Seq<FieldTypes>,
    count: nat,
    more: nat,
    plan: Seq<Step>,
)
    requires
        count <= more <= constructors.len(),
        alternatives_traversed(member, emitter, constructors, types, count, plan) is None,
    ensures
        alternatives_traversed(member, emitter, constructors, types, more, plan) is None,
    decreases more,
{
    if count < more {
        lemma_alternatives_fail(
            member,
            emitter,
            constructors,
            types,
            count,
            (more - 1) as nat,
            plan,
        );
    }
}

fn emit_alternatives(
    plan: &mut Plan,
    member: DecodedTraversalMember,
    emitter: ContravariantTraversalEmitter,
    recipe: &VarianceRecipe,
    types: &Vec<FieldTypes>,
) -> (alternatives: Option<Vec<PlanId>>)
    requires
        in_order(old(plan)@),
        types@.len() == recipe.constructors@.len(),
        emitter.mapping_expressions.made(old(plan)@),
    ensures
        ({
            let expected = alternatives_traversed(
                member,
                emitter,
                recipe.constructors@,
                types@,
                recipe.constructors@.len(),
                old(plan)@,
            );
            match alternatives {
                Some(alternatives) => {
                    &&& expected == Some((final(plan)@, alternatives@))
                    &&& in_order(final(plan)@)
                    &&& continues(old(plan)@, final(plan)@)
                    &&& makes_all(final(plan)@, alternatives@, Sort::Alternative)
                    &&& alternatives@.len() == recipe.constructors@.len()
                    &&& emitter.shaped(old(plan)@).rebuilds_all(
                        member.data_file,
                        recipe.constructors@,
                        case_patterns(final(plan)@, alternatives@),
                        case_bodies(final(plan)@, alternatives@),
                    )
                },
                None => expected is None,
            }
        }),
{
    let mut alternatives: Vec<PlanId> = Vec::new();
    let mut index: usize = 0;
    while index < recipe.constructors.len()
        invariant
            index <= recipe.constructors.len(),
            types@.len() == recipe.constructors@.len(),
            continues(old(plan)@, plan@),
            in_order(plan@),
            emitter.mapping_expressions.made(old(plan)@),
            makes_all(plan@, alternatives@, Sort::Alternative),
            alternatives_traversed(
                member,
                emitter,
                recipe.constructors@,
                types@,
                index as nat,
                old(plan)@,
            ) == Some((plan@, alternatives@)),
            alternatives@.len() == index,
            emitter.shaped(old(plan)@).rebuilds_all(
                member.data_file,
                recipe.constructors@,
                case_patterns(plan@, alternatives@),
                case_bodies(plan@, alternatives@),
            ),
        decreases recipe.constructors.len() - index,
    {
        let ghost before = plan@;
        let ghost known = alternatives@;
        proof {
            emitter.lemma_shaped(old(plan)@, plan@);
        }
        let alternative = emit_traversal_alternative(
            plan,
            member,
            emitter,
            &recipe.constructors[index],
            &types[index],
        );
        index += 1;
        if alternative.is_none() {
            proof {
                lemma_alternatives_fail(
                    member,
                    emitter,
                    recipe.constructors@,
                    types@,
                    index as nat,
                    recipe.constructors@.len(),
                    old(plan)@,
                );
            }
            return None;
        }
        let alternative = alternative?;
        alternatives.push(alternative);
        proof {
            let (pattern, body) = super::shapes::alternative(plan@, alternative)->0;
            lemma_cases_continue(before, plan@, known);
            lemma_cases_push(plan@, known, alternative, pattern, body);
            emitter.shaped(old(plan)@).lemma_rebuilds_push(
                member.data_file,
                recipe.constructors@,
                case_patterns(before, known),
                case_bodies(before, known),
                shape(plan@, pattern),
                shape(plan@, body),
            );
        }
    }
    Some(alternatives)
}

/// Binders for the mappings of a member, with their variables.
pub struct MappingBinders {
    pub plan: Seq<Step>,
    pub binders: Seq<PlanId>,
    pub expressions: Mappings<PlanId>,
}

/// Binders for the mappings of a member.
pub open spec fn mapping_binders(mappings: Mappings<TypeId>, plan: Seq<Step>) -> MappingBinders {
    match mappings {
        Mappings::Contravariant(mapping) => {
            let function = stepped(plan, Step::Binder { name: "function"@, type_id: mapping });
            let expression = stepped(function.plan, Step::Variable { binder: function.id });
            MappingBinders {
                plan: expression.plan,
                binders: seq![function.id],
                expressions: Mappings::Contravariant(expression.id),
            }
        },
        Mappings::Profunctor { first, second } => {
            let first = stepped(plan, Step::Binder { name: "firstFunction"@, type_id: first });
            let second = stepped(
                first.plan,
                Step::Binder { name: "secondFunction"@, type_id: second },
            );
            let left = stepped(second.plan, Step::Variable { binder: first.id });
            let right = stepped(left.plan, Step::Variable { binder: second.id });
            MappingBinders {
                plan: right.plan,
                binders: seq![first.id, second.id],
                expressions: Mappings::Profunctor { first: left.id, second: right.id },
            }
        },
    }
}

fn bind_mappings(plan: &mut Plan, mappings: Mappings<TypeId>) -> (bound: (
    Vec<PlanId>,
    Mappings<PlanId>,
))
    requires
        in_order(old(plan)@),
    ensures
        in_order(final(plan)@),
        continues(old(plan)@, final(plan)@),
        makes_all(final(plan)@, bound.0@, Sort::Binder),
        bound.1.made(final(plan)@),
        (MappingBinders { plan: final(plan)@, binders: bound.0@, expressions: bound.1 })
            == mapping_binders(mappings, old(plan)@),
        shapes(final(plan)@, bound.0@) == function_binders(bound_mappings(mappings, bound.0@)),
        mapping_shapes(bound.1, final(plan)@) == variables_of(
            bound_mappings(mappings, bound.0@),
        ),
{
    let mut binders: Vec<PlanId> = Vec::new();
    match mappings {
        Mappings::Contravariant(mapping) => {
            let function = plan.variable_binder("function", mapping);
            let ghost begun = plan@;
            let expression = plan.variable(function);
            binders.push(function);
            assert(binders@ =~= seq![function]);
            proof {
                lemma_shape_continues(begun, plan@, function);
                assert(shapes(plan@, binders@) =~= seq![variable_of(function)]);
            }
            (binders, Mappings::Contravariant(expression))
        },
        Mappings::Profunctor { first, second } => {
            let first = plan.variable_binder("firstFunction", first);
            let ghost one = plan@;
            let second = plan.variable_binder("secondFunction", second);
            let ghost two = plan@;
            let left = plan.variable(first);
            let ghost three = plan@;
            let right = plan.variable(second);
            binders.push(first);
            binders.push(second);
            assert(binders@ =~= seq![first, second]);
            proof {
                lemma_shape_continues(one, plan@, first);
                lemma_shape_continues(two, plan@, second);
                lemma_shape_continues(three, plan@, left);
                assert(shapes(plan@, binders@) =~= seq![variable_of(first), variable_of(second)]);
            }
            (binders, Mappings::Profunctor { first: left, second: right })
        },
    }
}

/// The map of a type: a function of the mappings and the value, with one
/// alternative for each constructor.
pub open spec fn type_traversed(
    member: DecodedTraversalMember,
    recipe: Seq<ConstructorRecipe>,
    types: Seq<FieldTypes>,
    known: KnownTerms,
    plan: Seq<Step>,
) -> Option<Emission> {
    let mapped = mapping_binders(member.mappings, plan);
    let value = stepped(mapped.plan, Step::Binder { name: "value"@, type_id: member.source_type });
    let scrutinee = stepped(value.plan, Step::Variable { binder: value.id });
    let emitter = ContravariantTraversalEmitter { mapping_expressions: mapped.expressions, known };
    match alternatives_traversed(member, emitter, recipe, types, recipe.len(), scrutinee.plan) {
        Some((after, alternatives)) => {
            let body = stepped(
                after,
                Step::Case { type_id: member.target_type, scrutinee: scrutinee.id, alternatives },
            );
            Some(
                stepped(
                    body.plan,
                    Step::Lambda {
                        planned: plain_type(member.function_type),
                        binders: mapped.binders.push(value.id),
                        body: body.id,
                    },
                ),
            )
        },
        None => None,
    }
}

/// Emits the map of a type.
pub fn emit_variance_traversal(
    plan: &mut Plan,
    member: DecodedTraversalMember,
    recipe: &VarianceRecipe,
    types: &Vec<FieldTypes>,
    known: KnownTerms,
) -> (traversal: Option<PlanId>)
    requires
        in_order(old(plan)@),
        types@.len() == recipe.constructors@.len(),
    ensures
        emitted(
            old(plan)@,
            final(plan)@,
            type_traversed(member, recipe.constructors@, types@, known, old(plan)@),
            traversal,
        ),
        traversal matches Some(id) ==> exists|
            mappings: Mappings<PlanId>,
            value: PlanId,
            patterns: Seq<Shape>,
            bodies: Seq<Shape>,
        |
            {
                &&& shape(final(plan)@, id) == #[trigger] map_of(
                    mappings,
                    value,
                    patterns,
                    bodies,
                )
                &&& patterns.len() == recipe.constructors@.len()
                &&& maps_over(mappings, known).rebuilds_all(
                    member.data_file,
                    recipe.constructors@,
                    patterns,
                    bodies,
                )
            },
{
    let (mut binders, mapping_expressions) = bind_mappings(plan, member.mappings);
    let ghost functions = binders@;
    let ghost mapped = plan@;
    let ghost mappings = bound_mappings(member.mappings, functions);
    let value = plan.variable_binder("value", member.source_type);
    let ghost begun = plan@;
    let scrutinee = plan.variable(value);
    binders.push(value);
    let emitter = ContravariantTraversalEmitter { mapping_expressions, known };
    let ghost ready = plan@;
    proof {
        emitter.lemma_shaped(mapped, plan@);
        assert(emitter.shaped(plan@) == maps_over(mappings, known));
    }
    let alternatives = emit_alternatives(plan, member, emitter, recipe, types)?;
    let ghost patterns = case_patterns(plan@, alternatives@);
    let ghost bodies = case_bodies(plan@, alternatives@);
    proof {
        lemma_shape_continues(ready, plan@, scrutinee);
        assert(shape(plan@, scrutinee) == variable_of(value));
    }
    let body = plan.case(member.target_type, scrutinee, alternatives);
    proof {
        lemma_made_within(mapped, functions, Sort::Binder);
        lemma_shapes_continue(mapped, plan@, functions);
        lemma_shape_continues(begun, plan@, value);
        assert(shapes(plan@, binders@) =~= function_binders(mappings).push(variable_of(value)));
    }
    let traversal = plan.lambda(PlanType::plain(member.function_type), binders, body);
    assert(shape(plan@, traversal) == map_of(mappings, value, patterns, bodies));
    Some(traversal)
}

} // verus!
