//! Derived traversals.

use super::super::types::{FileId, TypeId};
use super::contravariant::{binary_arguments, decompose_binary, FieldTypes};
use super::field::{find_row_field, row_field, FieldType, RowField};
use super::foldable::{is_term, made};
use super::plan::{
    applied_all, apply_all, arrow_type, continues, effect_type, emitted, emitted_as,
    group_continues, in_order, makes, makes_all, makes_updates, numbered, numbered_name,
    plain_type, stepped, Emission, Instruction, KnownTerms, Plan, PlanId, PlanType, PlannedType,
    Sort, Step,
};
use super::variance::{
    BinaryApplicationArguments, ConstructorRecipe, RecordFieldRecipe, TraversalOperation,
    TraversalParameter, VarianceRecipe,
};
use crate::indexing::items::TermItemId;
use vstd::prelude::*;

verus! {

broadcast use group_continues;

#[derive(Clone, Copy, Debug, PartialEq, Eq, Structural)]
pub enum TraversalKind {
    Traversable,
    Bitraversable,
}

/// One value for each parameter.
#[allow(inconsistent_fields)]
#[derive(Clone, Copy, Debug, PartialEq, Eq, Structural)]
pub enum Mappings<T> {
    Traversable(T),
    Bitraversable { first: T, second: T },
}

impl<T> Mappings<T> {
    /// The value for a parameter.
    pub open spec fn of(self, parameter: TraversalParameter) -> Option<T> {
        match (self, parameter) {
            (Mappings::Traversable(function), TraversalParameter::First) => Some(function),
            (Mappings::Bitraversable { first, .. }, TraversalParameter::First) => Some(first),
            (Mappings::Bitraversable { second, .. }, TraversalParameter::Second) => Some(second),
            (Mappings::Traversable(_), TraversalParameter::Second) => None,
        }
    }
}

impl Mappings<PlanId> {
    pub fn mapping_for(self, parameter: TraversalParameter) -> (mapping: Option<PlanId>)
        ensures
            mapping == self.of(parameter),
    {
        match (self, parameter) {
            (Mappings::Traversable(function), TraversalParameter::First) => Some(function),
            (Mappings::Bitraversable { first, .. }, TraversalParameter::First) => Some(first),
            (Mappings::Bitraversable { second, .. }, TraversalParameter::Second) => Some(second),
            (Mappings::Traversable(_), TraversalParameter::Second) => None,
        }
    }

    /// The mappings have been made.
    pub open spec fn made(self, plan: Seq<Step>) -> bool {
        match self {
            Mappings::Traversable(function) => makes(plan, function, Sort::Expression),
            Mappings::Bitraversable { first, second } => makes(plan, first, Sort::Expression) && makes(
                plan,
                second,
                Sort::Expression,
            ),
        }
    }
}

/// A field with the effect that yields its new value and the binder for that value.
#[derive(Clone, Copy, Debug, PartialEq, Eq, Structural)]
pub struct TraversedField {
    pub binder: PlanId,
    pub type_id: TypeId,
    pub effect: PlanId,
}

/// The binders of fields.
pub open spec fn result_binders(fields: Seq<TraversedField>) -> Seq<PlanId> {
    Seq::new(fields.len(), |i: int| fields[i].binder)
}

/// The types of fields.
pub open spec fn result_types(fields: Seq<TraversedField>) -> Seq<TypeId> {
    Seq::new(fields.len(), |i: int| fields[i].type_id)
}

/// All parts of the fields have been made.
pub open spec fn fields_before(fields: Seq<TraversedField>, plan: Seq<Step>) -> bool {
    forall|i: int|
        0 <= i < fields.len() ==> makes(plan, (#[trigger] fields[i]).binder, Sort::Binder)
            && makes(plan, fields[i].effect, Sort::Expression)
}

/// The fields of a record that have been traversed.
pub struct RecordEffects {
    pub plan: Seq<Step>,
    pub updates: Seq<(String, PlanId)>,
    pub fields: Seq<TraversedField>,
}

/// Emits a traversal.
#[derive(Clone, Copy, Debug)]
pub struct EffectTraversalEmitter {
    pub mapping_expressions: Mappings<PlanId>,
    pub effect: TypeId,
    pub known: KnownTerms,
}

impl EffectTraversalEmitter {
    /// The type of an effect that yields the type.
    pub open spec fn effectful(self, type_id: TypeId) -> PlannedType {
        effect_type(self.effect, type_id)
    }

    /// The effect that yields the value's counterpart in the target.
    pub open spec fn effected(
        self,
        operation: TraversalOperation,
        value: PlanId,
        source: FieldType,
        target: FieldType,
        plan: Seq<Step>,
    ) -> Option<Emission>
        decreases operation, 1nat,
    {
        match operation {
            TraversalOperation::Parameter { parameter } => {
                match self.mapping_expressions.of(parameter) {
                    Some(mapping) => Some(
                        made(plan, mapping).applied(value).as_type(
                            self.effectful(target.identity()),
                        ),
                    ),
                    None => None,
                }
            },
            TraversalOperation::UnaryApplication { argument, .. } => self.unary_effected(
                *argument,
                value,
                source,
                target,
                plan,
            ),
            TraversalOperation::BinaryApplication { arguments, .. } => self.binary_effected(
                arguments,
                value,
                source,
                target,
                plan,
            ),
            TraversalOperation::Record { fields } => match (source.record(), target.record()) {
                (Some(source_row), Some(target_row)) => match self.record_effects(
                    fields,
                    fields@.len(),
                    value,
                    source_row,
                    target_row,
                    plan,
                ) {
                    Some(effects) => self.lifted(
                        target.identity(),
                        effects.fields,
                        stepped(
                            effects.plan,
                            Step::RecordUpdate {
                                record: value,
                                updates: effects.updates,
                                type_id: target.identity(),
                            },
                        ),
                    ),
                    None => None,
                },
                _ => None,
            },
            TraversalOperation::Function { .. } => None,
        }
    }

    /// The traversal of a container with a function for each element.
    pub open spec fn unary_effected(
        self,
        argument: TraversalOperation,
        value: PlanId,
        source: FieldType,
        target: FieldType,
        plan: Seq<Step>,
    ) -> Option<Emission>
        decreases argument, 3nat,
    {
        match (source.applied(), target.applied()) {
            (Some((_, source_argument)), Some((_, target_argument))) => {
                match (
                    self.transformer(argument, source_argument, target_argument, plan),
                    self.known.traverse,
                ) {
                    (Some(transformer), Some(resolution)) => Some(
                        stepped(transformer.plan, Step::Reference { resolution }).applied(
                            transformer.id,
                        ).applied(value).as_type(self.effectful(target.identity())),
                    ),
                    _ => None,
                }
            },
            _ => None,
        }
    }

    /// The traversal of a container of two types with a function for each element.
    pub open spec fn binary_effected(
        self,
        arguments: BinaryApplicationArguments,
        value: PlanId,
        source: FieldType,
        target: FieldType,
        plan: Seq<Step>,
    ) -> Option<Emission>
        decreases arguments, 4nat,
    {
        match (binary_arguments(source), binary_arguments(target)) {
            (Some((source_first, source_second)), Some((target_first, target_second))) => {
                let first = match arguments {
                    BinaryApplicationArguments::First(first) => self.transformer(
                        *first,
                        source_first,
                        target_first,
                        plan,
                    ),
                    BinaryApplicationArguments::Second(_) => self.pure_transformer(
                        source_first,
                        target_first,
                        plan,
                    ),
                    BinaryApplicationArguments::Both { first, .. } => self.transformer(
                        *first,
                        source_first,
                        target_first,
                        plan,
                    ),
                };
                match first {
                    Some(first) => {
                        let second = match arguments {
                            BinaryApplicationArguments::First(_) => self.pure_transformer(
                                source_second,
                                target_second,
                                first.plan,
                            ),
                            BinaryApplicationArguments::Second(second) => self.transformer(
                                *second,
                                source_second,
                                target_second,
                                first.plan,
                            ),
                            BinaryApplicationArguments::Both { second, .. } => self.transformer(
                                *second,
                                source_second,
                                target_second,
                                first.plan,
                            ),
                        };
                        match (second, self.known.bitraverse) {
                            (Some(second), Some(resolution)) => Some(
                                stepped(second.plan, Step::Reference { resolution }).applied(
                                    first.id,
                                ).applied(second.id).applied(value).as_type(
                                    self.effectful(target.identity()),
                                ),
                            ),
                            _ => None,
                        }
                    },
                    None => None,
                }
            },
            _ => None,
        }
    }

    /// The type of a function from a value to an effect.
    pub open spec fn transformer_type(self, source: TypeId, target: TypeId) -> PlannedType {
        PlannedType { arguments: seq![source], effect: Some(self.effect), result: target }
    }

    /// A function from an element to the effect that yields its counterpart.
    pub open spec fn transformer(
        self,
        operation: TraversalOperation,
        source: FieldType,
        target: FieldType,
        plan: Seq<Step>,
    ) -> Option<Emission>
        decreases operation, 2nat,
    {
        let input = stepped(plan, Step::Binder { name: "element"@, type_id: source.identity() });
        let value = stepped(input.plan, Step::Variable { binder: input.id });
        match self.effected(operation, value.id, source, target, value.plan) {
            Some(body) => Some(
                stepped(
                    body.plan,
                    Step::Lambda {
                        planned: self.transformer_type(source.identity(), target.identity()),
                        binders: seq![input.id],
                        body: body.id,
                    },
                ),
            ),
            None => None,
        }
    }

    /// A function that yields its argument without an effect.
    pub open spec fn pure_transformer(
        self,
        source: FieldType,
        target: FieldType,
        plan: Seq<Step>,
    ) -> Option<Emission> {
        let input = stepped(plan, Step::Binder { name: "unchanged"@, type_id: source.identity() });
        let value = stepped(input.plan, Step::Variable { binder: input.id }).as_type(
            plain_type(target.identity()),
        );
        match self.pure(value, target.identity()) {
            Some(body) => Some(
                stepped(
                    body.plan,
                    Step::Lambda {
                        planned: self.transformer_type(source.identity(), target.identity()),
                        binders: seq![input.id],
                        body: body.id,
                    },
                ),
            ),
            None => None,
        }
    }

    /// A value without an effect.
    pub open spec fn pure(self, value: Emission, target: TypeId) -> Option<Emission> {
        match self.known.pure {
            Some(resolution) => Some(
                stepped(value.plan, Step::Reference { resolution }).applied(value.id).as_type(
                    self.effectful(target),
                ),
            ),
            None => None,
        }
    }

    /// A record's field, accessed and traversed.
    pub open spec fn field_effected(
        self,
        field: RecordFieldRecipe,
        value: PlanId,
        source: FieldType,
        target: FieldType,
        plan: Seq<Step>,
    ) -> Option<Emission>
        decreases field, 0nat,
    {
        let accessed = stepped(
            plan,
            Step::RecordAccess { record: value, label: field.label, type_id: source.identity() },
        );
        self.effected(field.operation, accessed.id, source, target, accessed.plan)
    }

    /// The effects of a record's first fields.
    pub open spec fn record_effects(
        self,
        fields: Vec<RecordFieldRecipe>,
        count: nat,
        value: PlanId,
        source_row: Seq<RowField>,
        target_row: Seq<RowField>,
        plan: Seq<Step>,
    ) -> Option<RecordEffects>
        decreases fields, count,
    {
        if count == 0 || count > fields@.len() {
            Some(RecordEffects { plan, updates: Seq::empty(), fields: Seq::empty() })
        } else {
            let field = fields@[count - 1];
            match (
                self.record_effects(
                    fields,
                    (count - 1) as nat,
                    value,
                    source_row,
                    target_row,
                    plan,
                ),
                row_field(source_row, field.label@),
                row_field(target_row, field.label@),
            ) {
                (Some(before), Some(source), Some(target)) => match self.field_effected(
                    fields@[count - 1],
                    value,
                    source,
                    target,
                    before.plan,
                ) {
                    Some(effect) => {
                        let binder = stepped(
                            effect.plan,
                            Step::Binder {
                                name: numbered("recordField"@, (count - 1) as nat),
                                type_id: target.identity(),
                            },
                        );
                        let result = stepped(binder.plan, Step::Variable { binder: binder.id });
                        Some(
                            RecordEffects {
                                plan: result.plan,
                                updates: before.updates.push((field.label, result.id)),
                                fields: before.fields.push(
                                    TraversedField {
                                        binder: binder.id,
                                        type_id: target.identity(),
                                        effect: effect.id,
                                    },
                                ),
                            },
                        )
                    },
                    None => None,
                },
                _ => None,
            }
        }
    }

    /// An effect that yields a function, applied to the effects of the fields
    /// behind the first one, from left to right.
    pub open spec fn effects_applied(
        self,
        fields: Seq<TraversedField>,
        count: nat,
        mapped: Emission,
    ) -> Option<Emission>
        decreases count,
    {
        if count <= 1 || count > fields.len() {
            Some(mapped)
        } else {
            match (self.effects_applied(fields, (count - 1) as nat, mapped), self.known.apply) {
                (Some(before), Some(resolution)) => Some(
                    stepped(before.plan, Step::Reference { resolution }).applied(
                        before.id,
                    ).applied(fields[count - 1].effect),
                ),
                _ => None,
            }
        }
    }

    /// The rebuilt value as a function of the new values of its fields, over the
    /// fields' effects: mapped over the first one and applied to the others. Without
    /// fields there is no effect.
    pub open spec fn lifted(
        self,
        target: TypeId,
        fields: Seq<TraversedField>,
        rebuilt: Emission,
    ) -> Option<Emission> {
        if fields.len() == 0 {
            self.pure(rebuilt, target)
        } else {
            let function = stepped(
                rebuilt.plan,
                Step::Lambda {
                    planned: PlannedType {
                        arguments: result_types(fields),
                        effect: None,
                        result: target,
                    },
                    binders: result_binders(fields),
                    body: rebuilt.id,
                },
            );
            match self.known.map {
                Some(resolution) => match self.effects_applied(
                    fields,
                    fields.len(),
                    stepped(function.plan, Step::Reference { resolution }).applied(
                        function.id,
                    ).applied(fields[0].effect),
                ) {
                    Some(applied) => Some(applied.as_type(self.effectful(target))),
                    None => None,
                },
                None => None,
            }
        }
    }

    proof fn lemma_record_effects_fail(
        self,
        fields: Vec<RecordFieldRecipe>,
        count: nat,
        more: nat,
        value: PlanId,
        source_row: Seq<RowField>,
        target_row: Seq<RowField>,
        plan: Seq<Step>,
    )
        requires
            count <= more <= fields@.len(),
            self.record_effects(fields, count, value, source_row, target_row, plan) is None,
        ensures
            self.record_effects(fields, more, value, source_row, target_row, plan) is None,
        decreases more,
    {
        if count < more {
            self.lemma_record_effects_fail(
                fields,
                count,
                (more - 1) as nat,
                value,
                source_row,
                target_row,
                plan,
            );
        }
    }

    proof fn lemma_effects_applied_fail(
        self,
        fields: Seq<TraversedField>,
        count: nat,
        more: nat,
        mapped: Emission,
    )
        requires
            count <= more <= fields.len(),
            self.effects_applied(fields, count, mapped) is None,
        ensures
            self.effects_applied(fields, more, mapped) is None,
        decreases more,
    {
        if count < more {
            self.lemma_effects_applied_fail(fields, count, (more - 1) as nat, mapped);
        }
    }
}

impl EffectTraversalEmitter {
    /// What the emitter and its arguments have to be for a plan.
    pub open spec fn ready(self, plan: Seq<Step>, value: PlanId) -> bool {
        &&& in_order(plan)
        &&& self.mapping_expressions.made(plan)
        &&& makes(plan, value, Sort::Expression)
    }

    /// The type of an effect that yields the type.
    pub fn effect_type(&self, target: TypeId) -> (planned: PlanType)
        ensures
            planned@ == self.effectful(target),
    {
        PlanType::within(self.effect, target)
    }

    fn function_type(&self, source: TypeId, target: TypeId) -> (planned: PlanType)
        ensures
            planned@ == self.transformer_type(source, target),
    {
        let mut arguments: Vec<TypeId> = Vec::new();
        arguments.push(source);
        assert(arguments@ =~= seq![source]);
        PlanType { arguments, effect: Some(self.effect), result: target }
    }

    /// Emits the effect that yields the value's counterpart in the target.
    pub fn emit_effect(
        self,
        plan: &mut Plan,
        operation: &TraversalOperation,
        value: PlanId,
        source: &FieldType,
        target: &FieldType,
    ) -> (effect: Option<PlanId>)
        requires
            self.ready(old(plan)@, value),
        ensures
            emitted(
                old(plan)@,
                final(plan)@,
                self.effected(*operation, value, *source, *target, old(plan)@),
                effect,
            ),
        decreases *operation, 1nat,
    {
        match operation {
            TraversalOperation::Parameter { parameter } => {
                let mapping = self.mapping_expressions.mapping_for(*parameter)?;
                let mapped = plan.apply(mapping, value);
                Some(plan.subtype(mapped, self.effect_type(target.id())))
            },
            TraversalOperation::UnaryApplication { argument, .. } => self.emit_unary_effect(
                plan,
                argument,
                value,
                source,
                target,
            ),
            TraversalOperation::BinaryApplication { arguments, .. } => self.emit_binary_effect(
                plan,
                arguments,
                value,
                source,
                target,
            ),
            TraversalOperation::Record { fields } => {
                let source_row = source.extract_record_row()?;
                let target_row = target.extract_record_row()?;
                let (updates, traversed) = self.emit_record_effects(
                    plan,
                    fields,
                    value,
                    source_row,
                    target_row,
                )?;
                let rebuilt = plan.push(
                    Instruction::RecordUpdate { record: value, updates, type_id: target.id() },
                );
                self.lift_reconstruction(plan, target.id(), &traversed, rebuilt)
            },
            // Function operations are rejected during variance analysis.
            TraversalOperation::Function { .. } => None,
        }
    }

    fn emit_unary_effect(
        self,
        plan: &mut Plan,
        argument: &TraversalOperation,
        value: PlanId,
        source: &FieldType,
        target: &FieldType,
    ) -> (effect: Option<PlanId>)
        requires
            self.ready(old(plan)@, value),
        ensures
            emitted(
                old(plan)@,
                final(plan)@,
                self.unary_effected(*argument, value, *source, *target, old(plan)@),
                effect,
            ),
        decreases *argument, 3nat,
    {
        let (_, source_argument) = source.decompose_type_application()?;
        let (_, target_argument) = target.decompose_type_application()?;
        let transformer = self.emit_transformer(plan, argument, source_argument, target_argument)?;
        let traverse = self.known.traverse?;
        let traverse = plan.term_reference(traverse);
        let traverse = plan.apply(traverse, transformer);
        let traversed = plan.apply(traverse, value);
        Some(plan.subtype(traversed, self.effect_type(target.id())))
    }

    fn emit_binary_effect(
        self,
        plan: &mut Plan,
        arguments: &BinaryApplicationArguments,
        value: PlanId,
        source: &FieldType,
        target: &FieldType,
    ) -> (effect: Option<PlanId>)
        requires
            self.ready(old(plan)@, value),
        ensures
            emitted(
                old(plan)@,
                final(plan)@,
                self.binary_effected(*arguments, value, *source, *target, old(plan)@),
                effect,
            ),
        decreases *arguments, 4nat,
    {
        let (source_first, source_second) = decompose_binary(source)?;
        let (target_first, target_second) = decompose_binary(target)?;
        // An argument in which the parameter does not occur is yielded unchanged.
        let first = match arguments {
            BinaryApplicationArguments::First(first) => self.emit_transformer(
                plan,
                first,
                source_first,
                target_first,
            ),
            BinaryApplicationArguments::Second(_) => self.emit_pure_transformer(
                plan,
                source_first,
                target_first,
            ),
            BinaryApplicationArguments::Both { first, .. } => self.emit_transformer(
                plan,
                first,
                source_first,
                target_first,
            ),
        };
        let first = first?;
        let second = match arguments {
            BinaryApplicationArguments::First(_) => self.emit_pure_transformer(
                plan,
                source_second,
                target_second,
            ),
            BinaryApplicationArguments::Second(second) => self.emit_transformer(
                plan,
                second,
                source_second,
                target_second,
            ),
            BinaryApplicationArguments::Both { second, .. } => self.emit_transformer(
                plan,
                second,
                source_second,
                target_second,
            ),
        };
        let second = second?;
        let bitraverse = self.known.bitraverse?;
        let bitraverse = plan.term_reference(bitraverse);
        let bitraverse = plan.apply(bitraverse, first);
        let bitraverse = plan.apply(bitraverse, second);
        let traversed = plan.apply(bitraverse, value);
        Some(plan.subtype(traversed, self.effect_type(target.id())))
    }

    fn emit_transformer(
        self,
        plan: &mut Plan,
        operation: &TraversalOperation,
        source: &FieldType,
        target: &FieldType,
    ) -> (transformer: Option<PlanId>)
        requires
            in_order(old(plan)@),
            self.mapping_expressions.made(old(plan)@),
        ensures
            emitted(
                old(plan)@,
                final(plan)@,
                self.transformer(*operation, *source, *target, old(plan)@),
                transformer,
            ),
        decreases *operation, 2nat,
    {
        let input = plan.variable_binder("element", source.id());
        let value = plan.variable(input);
        let body = self.emit_effect(plan, operation, value, source, target)?;
        Some(plan.unary_lambda(self.function_type(source.id(), target.id()), input, body))
    }

    fn emit_pure_transformer(self, plan: &mut Plan, source: &FieldType, target: &FieldType) -> (
    transformer: Option<PlanId>)
        requires
            in_order(old(plan)@),
        ensures
            emitted(
                old(plan)@,
                final(plan)@,
                self.pure_transformer(*source, *target, old(plan)@),
                transformer,
            ),
    {
        let input = plan.variable_binder("unchanged", source.id());
        let value = plan.variable(input);
        let value = plan.subtype(value, PlanType::plain(target.id()));
        let body = self.emit_pure(plan, value, target.id())?;
        Some(plan.unary_lambda(self.function_type(source.id(), target.id()), input, body))
    }

    fn emit_pure(self, plan: &mut Plan, value: PlanId, target: TypeId) -> (pure: Option<PlanId>)
        requires
            in_order(old(plan)@),
            makes(old(plan)@, value, Sort::Expression),
        ensures
            emitted(
                old(plan)@,
                final(plan)@,
                self.pure(made(old(plan)@, value), target),
                pure,
            ),
    {
        let pure = self.known.pure?;
        let pure = plan.term_reference(pure);
        let pure = plan.apply(pure, value);
        Some(plan.subtype(pure, self.effect_type(target)))
    }

    fn emit_field(
        self,
        plan: &mut Plan,
        field: &RecordFieldRecipe,
        value: PlanId,
        source: &FieldType,
        target: &FieldType,
    ) -> (effect: Option<PlanId>)
        requires
            self.ready(old(plan)@, value),
        ensures
            emitted(
                old(plan)@,
                final(plan)@,
                self.field_effected(*field, value, *source, *target, old(plan)@),
                effect,
            ),
        decreases *field, 0nat,
    {
        let accessed = plan.record_access(value, &field.label, source.id());
        self.emit_effect(plan, &field.operation, accessed, source, target)
    }

    fn emit_record_effects(
        self,
        plan: &mut Plan,
        fields: &Vec<RecordFieldRecipe>,
        value: PlanId,
        source_row: &Vec<RowField>,
        target_row: &Vec<RowField>,
    ) -> (effects: Option<(Vec<(String, PlanId)>, Vec<TraversedField>)>)
        requires
            self.ready(old(plan)@, value),
        ensures
            ({
                let expected = self.record_effects(
                    *fields,
                    fields@.len(),
                    value,
                    source_row@,
                    target_row@,
                    old(plan)@,
                );
                match effects {
                    Some((updates, traversed)) => {
                        &&& expected == Some(
                            RecordEffects {
                                plan: final(plan)@,
                                updates: updates@,
                                fields: traversed@,
                            },
                        )
                        &&& in_order(final(plan)@)
                        &&& continues(old(plan)@, final(plan)@)
                        &&& fields_before(traversed@, final(plan)@)
                        &&& makes_updates(final(plan)@, updates@)
                    },
                    None => expected is None,
                }
            }),
        decreases *fields, 0nat,
    {
        let mut updates: Vec<(String, PlanId)> = Vec::new();
        let mut traversed: Vec<TraversedField> = Vec::new();
        let mut index: usize = 0;
        while index < fields.len()
            invariant
                index <= fields.len(),
                continues(old(plan)@, plan@),
                self.ready(plan@, value),
                fields_before(traversed@, plan@),
                makes_updates(plan@, updates@),
                self.record_effects(
                    *fields,
                    index as nat,
                    value,
                    source_row@,
                    target_row@,
                    old(plan)@,
                ) == Some(
                    RecordEffects { plan: plan@, updates: updates@, fields: traversed@ },
                ),
            decreases fields.len() - index,
        {
            let field = &fields[index];
            let source = find_row_field(source_row, field.label.as_str());
            let target = find_row_field(target_row, field.label.as_str());
            let effect = match (source, target) {
                (Some(source), Some(target)) => self.emit_field(plan, field, value, source, target),
                _ => None,
            };
            if effect.is_none() {
                proof {
                    self.lemma_record_effects_fail(
                        *fields,
                        index as nat + 1,
                        fields@.len(),
                        value,
                        source_row@,
                        target_row@,
                        old(plan)@,
                    );
                }
                return None;
            }
            let effect = effect?;
            let type_id = target?.id();
            let name = numbered_name("recordField", index);
            let binder = plan.variable_binder(name.as_str(), type_id);
            let result = plan.variable(binder);
            updates.push((field.label.clone(), result));
            traversed.push(TraversedField { binder, type_id, effect });
            index += 1;
        }
        Some((updates, traversed))
    }

    /// Lifts a rebuilt value over the effects of its fields.
    pub fn lift_reconstruction(
        self,
        plan: &mut Plan,
        target: TypeId,
        fields: &Vec<TraversedField>,
        rebuilt: PlanId,
    ) -> (lifted: Option<PlanId>)
        requires
            in_order(old(plan)@),
            makes(old(plan)@, rebuilt, Sort::Expression),
            fields_before(fields@, old(plan)@),
        ensures
            emitted(
                old(plan)@,
                final(plan)@,
                self.lifted(target, fields@, made(old(plan)@, rebuilt)),
                lifted,
            ),
    {
        if fields.len() == 0 {
            return self.emit_pure(plan, rebuilt, target);
        }
        let (binders, arguments) = self.field_results(fields);
        assert forall|i: int| 0 <= i < binders@.len() implies makes(
            old(plan)@,
            #[trigger] binders@[i],
            Sort::Binder,
        ) by {
            assert(binders@[i] == fields@[i].binder);
        }
        let planned = PlanType { arguments, effect: None, result: target };
        let function = plan.lambda(planned, binders, rebuilt);
        let map = self.known.map?;
        let map = plan.term_reference(map);
        let map = plan.apply(map, function);
        let mapped = plan.apply(map, fields[0].effect);
        let applied = self.apply_effects(plan, fields, mapped)?;
        Some(plan.subtype(applied, self.effect_type(target)))
    }

    fn field_results(&self, fields: &Vec<TraversedField>) -> (results: (Vec<PlanId>, Vec<TypeId>))
        ensures
            results.0@ == result_binders(fields@),
            results.1@ == result_types(fields@),
    {
        let mut binders: Vec<PlanId> = Vec::new();
        let mut arguments: Vec<TypeId> = Vec::new();
        let mut index: usize = 0;
        while index < fields.len()
            invariant
                index <= fields.len(),
                binders@.len() == index,
                arguments@.len() == index,
                forall|i: int| 0 <= i < index ==> binders@[i] == fields@[i].binder,
                forall|i: int| 0 <= i < index ==> arguments@[i] == fields@[i].type_id,
            decreases fields.len() - index,
        {
            binders.push(fields[index].binder);
            arguments.push(fields[index].type_id);
            index += 1;
        }
        assert(binders@ =~= result_binders(fields@));
        assert(arguments@ =~= result_types(fields@));
        (binders, arguments)
    }

    fn apply_effects(self, plan: &mut Plan, fields: &Vec<TraversedField>, mapped: PlanId) -> (applied:
        Option<PlanId>)
        requires
            in_order(old(plan)@),
            makes(old(plan)@, mapped, Sort::Expression),
            fields_before(fields@, old(plan)@),
            fields@.len() > 0,
        ensures
            emitted(
                old(plan)@,
                final(plan)@,
                self.effects_applied(fields@, fields@.len(), made(old(plan)@, mapped)),
                applied,
            ),
    {
        let mut accumulated = mapped;
        let mut index: usize = 1;
        while index < fields.len()
            invariant
                1 <= index <= fields.len(),
                in_order(plan@),
                continues(old(plan)@, plan@),
                makes(plan@, accumulated, Sort::Expression),
                fields_before(fields@, old(plan)@),
                self.effects_applied(fields@, index as nat, made(old(plan)@, mapped)) == Some(
                    made(plan@, accumulated),
                ),
            decreases fields.len() - index,
        {
            if self.known.apply.is_none() {
                proof {
                    self.lemma_effects_applied_fail(
                        fields@,
                        index as nat + 1,
                        fields@.len(),
                        made(old(plan)@, mapped),
                    );
                }
                return None;
            }
            let apply = plan.term_reference(self.known.apply?);
            let apply = plan.apply(apply, accumulated);
            accumulated = plan.apply(apply, fields[index].effect);
            index += 1;
        }
        Some(accumulated)
    }
}

// Constructors

/// The fields of a constructor: binders of the source's fields, values that the
/// target is rebuilt from, and effects of the fields that have one.
pub struct EffectedFields {
    pub plan: Seq<Step>,
    pub binders: Seq<PlanId>,
    pub values: Seq<PlanId>,
    pub fields: Seq<TraversedField>,
}

/// The name of the binder for a field's new value.
pub open spec fn result_name(index: nat) -> Seq<char> {
    numbered("field"@, index) + "Result"@
}

impl EffectTraversalEmitter {
    /// The first fields of a constructor. Fields without an operation stay as they
    /// are.
    pub open spec fn fields_effected(
        self,
        operations: Seq<Option<TraversalOperation>>,
        count: nat,
        sources: Seq<FieldType>,
        targets: Seq<FieldType>,
        plan: Seq<Step>,
    ) -> Option<EffectedFields>
        decreases count,
    {
        if count == 0 || count > operations.len() {
            Some(
                EffectedFields {
                    plan,
                    binders: Seq::empty(),
                    values: Seq::empty(),
                    fields: Seq::empty(),
                },
            )
        } else {
            let last = count - 1;
            match self.fields_effected(operations, last as nat, sources, targets, plan) {
                Some(before) => {
                    let binder = stepped(
                        before.plan,
                        Step::Binder {
                            name: numbered("field"@, last as nat),
                            type_id: sources[last].identity(),
                        },
                    );
                    let variable = stepped(binder.plan, Step::Variable { binder: binder.id });
                    match operations[last] {
                        Some(operation) => match self.effected(
                            operation,
                            variable.id,
                            sources[last],
                            targets[last],
                            variable.plan,
                        ) {
                            Some(effect) => {
                                let result = stepped(
                                    effect.plan,
                                    Step::Binder {
                                        name: result_name(last as nat),
                                        type_id: targets[last].identity(),
                                    },
                                );
                                let value = stepped(
                                    result.plan,
                                    Step::Variable { binder: result.id },
                                );
                                Some(
                                    EffectedFields {
                                        plan: value.plan,
                                        binders: before.binders.push(binder.id),
                                        values: before.values.push(value.id),
                                        fields: before.fields.push(
                                            TraversedField {
                                                binder: result.id,
                                                type_id: targets[last].identity(),
                                                effect: effect.id,
                                            },
                                        ),
                                    },
                                )
                            },
                            None => None,
                        },
                        None => Some(
                            EffectedFields {
                                plan: variable.plan,
                                binders: before.binders.push(binder.id),
                                values: before.values.push(variable.id),
                                fields: before.fields,
                            },
                        ),
                    }
                },
                None => None,
            }
        }
    }

    proof fn lemma_fields_effected_fail(
        self,
        operations: Seq<Option<TraversalOperation>>,
        count: nat,
        more: nat,
        sources: Seq<FieldType>,
        targets: Seq<FieldType>,
        plan: Seq<Step>,
    )
        requires
            count <= more <= operations.len(),
            self.fields_effected(operations, count, sources, targets, plan) is None,
        ensures
            self.fields_effected(operations, more, sources, targets, plan) is None,
        decreases more,
    {
        if count < more {
            self.lemma_fields_effected_fail(
                operations,
                count,
                (more - 1) as nat,
                sources,
                targets,
                plan,
            );
        }
    }

    fn emit_fields(
        self,
        plan: &mut Plan,
        operations: &Vec<Option<TraversalOperation>>,
        sources: &Vec<FieldType>,
        targets: &Vec<FieldType>,
    ) -> (fields: Option<(Vec<PlanId>, Vec<PlanId>, Vec<TraversedField>)>)
        requires
            in_order(old(plan)@),
            self.mapping_expressions.made(old(plan)@),
            operations@.len() == sources@.len() == targets@.len(),
        ensures
            ({
                let expected = self.fields_effected(
                    operations@,
                    operations@.len(),
                    sources@,
                    targets@,
                    old(plan)@,
                );
                match fields {
                    Some((binders, values, traversed)) => {
                        &&& expected == Some(
                            EffectedFields {
                                plan: final(plan)@,
                                binders: binders@,
                                values: values@,
                                fields: traversed@,
                            },
                        )
                        &&& in_order(final(plan)@)
                        &&& continues(old(plan)@, final(plan)@)
                        &&& makes_all(final(plan)@, binders@, Sort::Binder)
                        &&& makes_all(final(plan)@, values@, Sort::Expression)
                        &&& fields_before(traversed@, final(plan)@)
                    },
                    None => expected is None,
                }
            }),
    {
        let mut binders: Vec<PlanId> = Vec::new();
        let mut values: Vec<PlanId> = Vec::new();
        let mut traversed: Vec<TraversedField> = Vec::new();
        let mut index: usize = 0;
        while index < operations.len()
            invariant
                index <= operations.len(),
                operations@.len() == sources@.len() == targets@.len(),
                continues(old(plan)@, plan@),
                in_order(plan@),
                self.mapping_expressions.made(plan@),
                makes_all(plan@, binders@, Sort::Binder),
                makes_all(plan@, values@, Sort::Expression),
                fields_before(traversed@, plan@),
                self.fields_effected(
                    operations@,
                    index as nat,
                    sources@,
                    targets@,
                    old(plan)@,
                ) == Some(
                    EffectedFields {
                        plan: plan@,
                        binders: binders@,
                        values: values@,
                        fields: traversed@,
                    },
                ),
            decreases operations.len() - index,
        {
            let name = numbered_name("field", index);
            let binder = plan.variable_binder(name.as_str(), sources[index].id());
            let variable = plan.variable(binder);
            match &operations[index] {
                Some(operation) => {
                    let effect = self.emit_effect(
                        plan,
                        operation,
                        variable,
                        &sources[index],
                        &targets[index],
                    );
                    if effect.is_none() {
                        proof {
                            self.lemma_fields_effected_fail(
                                operations@,
                                index as nat + 1,
                                operations@.len(),
                                sources@,
                                targets@,
                                old(plan)@,
                            );
                        }
                        return None;
                    }
                    let effect = effect?;
                    let type_id = targets[index].id();
                    let mut name = numbered_name("field", index);
                    name.append("Result");
                    let result = plan.variable_binder(name.as_str(), type_id);
                    let value = plan.variable(result);
                    values.push(value);
                    traversed.push(TraversedField { binder: result, type_id, effect });
                },
                None => {
                    values.push(variable);
                },
            }
            binders.push(binder);
            index += 1;
        }
        Some((binders, values, traversed))
    }
}

/// A member whose traversal is derived.
#[derive(Clone, Copy, Debug)]
pub struct DecodedTraversalMember {
    pub function_type: TypeId,
    pub mappings: Mappings<TypeId>,
    pub effect: TypeId,
    pub data_file: FileId,
    pub source_type: TypeId,
    pub target_type: TypeId,
    pub result_type: TypeId,
}

/// How many arguments the traversal takes: one mapping for each parameter, and the
/// value.
pub fn traversal_argument_count(traversal: TraversalKind) -> (count: usize)
    ensures
        count == (match traversal {
            TraversalKind::Traversable => 2int,
            TraversalKind::Bitraversable => 3int,
        }),
{
    match traversal {
        TraversalKind::Traversable => 2,
        TraversalKind::Bitraversable => 3,
    }
}

/// The mappings and the source of a traversal's signature.
pub open spec fn traversal_signature(traversal: TraversalKind, arguments: Seq<TypeId>) -> Option<
    (Mappings<TypeId>, TypeId),
> {
    match traversal {
        TraversalKind::Traversable => if arguments.len() == 2 {
            Some((Mappings::Traversable(arguments[0]), arguments[1]))
        } else {
            None
        },
        TraversalKind::Bitraversable => if arguments.len() == 3 {
            Some(
                (
                    Mappings::Bitraversable { first: arguments[0], second: arguments[1] },
                    arguments[2],
                ),
            )
        } else {
            None
        },
    }
}

/// Reads the signature of a traversal: from the mappings and the source to an
/// effect that yields the target. `applied` are the effect and the target, where
/// the result is an application. None where the signature is of another shape.
pub fn decode(
    traversal: TraversalKind,
    arguments: &Vec<TypeId>,
    result: TypeId,
    applied: Option<(TypeId, TypeId)>,
    function_type: TypeId,
    data_file: FileId,
) -> (decoded: Option<DecodedTraversalMember>)
    ensures
        decoded == (match (traversal_signature(traversal, arguments@), applied) {
            (Some((mappings, source_type)), Some((effect, target_type))) => Some(
                DecodedTraversalMember {
                    function_type,
                    mappings,
                    effect,
                    data_file,
                    source_type,
                    target_type,
                    result_type: result,
                },
            ),
            _ => None,
        }),
{
    let count: usize = traversal_argument_count(traversal);
    if arguments.len() != count {
        return None;
    }
    let mappings = match traversal {
        TraversalKind::Traversable => Mappings::Traversable(arguments[0]),
        TraversalKind::Bitraversable => Mappings::Bitraversable {
            first: arguments[0],
            second: arguments[1],
        },
    };
    let (effect, target_type) = applied?;
    Some(
        DecodedTraversalMember {
            function_type,
            mappings,
            effect,
            data_file,
            source_type: arguments[count - 1],
            target_type,
            result_type: result,
        },
    )
}

/// The alternative of a traversal for one constructor, which rebuilds it over the
/// effects of its fields; none where the fields do not fit the recipe.
pub open spec fn alternative_effected(
    member: DecodedTraversalMember,
    emitter: EffectTraversalEmitter,
    constructor: ConstructorRecipe,
    types: FieldTypes,
    plan: Seq<Step>,
) -> Option<Emission> {
    let resolution = (member.data_file, constructor.constructor_id);
    if types.sources@.len() != types.targets@.len() || types.sources@.len()
        != constructor.fields@.len() {
        None
    } else {
        match emitter.fields_effected(
            constructor.fields@,
            constructor.fields@.len(),
            types.sources@,
            types.targets@,
            plan,
        ) {
            Some(effected) => {
                let pattern = stepped(
                    effected.plan,
                    Step::ConstructorPattern {
                        name: "constructor"@,
                        type_id: member.source_type,
                        resolution,
                        arguments: effected.binders,
                    },
                );
                let reference = stepped(pattern.plan, Step::Reference { resolution });
                let rebuilt = applied_all(
                    reference,
                    effected.values,
                    effected.values.len(),
                ).as_type(plain_type(member.target_type));
                match emitter.lifted(member.target_type, effected.fields, rebuilt) {
                    Some(body) => Some(
                        stepped(
                            body.plan,
                            Step::Alternative { pattern: pattern.id, body: body.id },
                        ),
                    ),
                    None => None,
                }
            },
            None => None,
        }
    }
}

/// Emits the alternative of a traversal for one constructor.
pub fn emit_traversal_alternative(
    plan: &mut Plan,
    member: DecodedTraversalMember,
    emitter: EffectTraversalEmitter,
    constructor: &ConstructorRecipe,
    types: &FieldTypes,
) -> (alternative: Option<PlanId>)
    requires
        in_order(old(plan)@),
        emitter.mapping_expressions.made(old(plan)@),
    ensures
        emitted_as(
            old(plan)@,
            final(plan)@,
            alternative_effected(member, emitter, *constructor, *types, old(plan)@),
            alternative,
            Sort::Alternative,
        ),
{
    if types.sources.len() != types.targets.len() || types.sources.len()
        != constructor.fields.len() {
        return None;
    }
    let resolution = (member.data_file, constructor.constructor_id);
    let (binders, values, traversed) = emitter.emit_fields(
        plan,
        &constructor.fields,
        &types.sources,
        &types.targets,
    )?;
    let pattern = plan.constructor_pattern(
        "constructor",
        member.source_type,
        resolution,
        binders,
    );
    let reference = plan.term_reference(resolution);
    let rebuilt = apply_all(plan, reference, &values);
    let rebuilt = plan.subtype(rebuilt, PlanType::plain(member.target_type));
    let body = emitter.lift_reconstruction(plan, member.target_type, &traversed, rebuilt)?;
    Some(plan.alternative(pattern, body))
}

/// The alternatives of a traversal for the first constructors.
pub open spec fn alternatives_effected(
    member: DecodedTraversalMember,
    emitter: EffectTraversalEmitter,
    constructors: Seq<ConstructorRecipe>,
    types: Seq<FieldTypes>,
    count: nat,
    plan: Seq<Step>,
) -> Option<(Seq<Step>, Seq<PlanId>)>
    decreases count,
{
    if count == 0 || count > constructors.len() {
        Some((plan, Seq::empty()))
    } else {
        match alternatives_effected(
            member,
            emitter,
            constructors,
            types,
            (count - 1) as nat,
            plan,
        ) {
            Some((before, alternatives)) => match alternative_effected(
                member,
                emitter,
                constructors[count - 1],
                types[count - 1],
                before,
            ) {
                Some(alternative) => Some((alternative.plan, alternatives.push(alternative.id))),
                None => None,
            },
            None => None,
        }
    }
}

proof fn lemma_alternatives_fail(
    member: DecodedTraversalMember,
    emitter: EffectTraversalEmitter,
    constructors: Seq<ConstructorRecipe>,
    types: Seq<FieldTypes>,
    count: nat,
    more: nat,
    plan: Seq<Step>,
)
    requires
        count <= more <= constructors.len(),
        alternatives_effected(member, emitter, constructors, types, count, plan) is None,
    ensures
        alternatives_effected(member, emitter, constructors, types, more, plan) is None,
    decreases more,
{
    if count < more {
        lemma_alternatives_fail(
            member,
            emitter,
            constructors,
            types,
            count,
            (more - 1) as nat,
            plan,
        );
    }
}

fn emit_alternatives(
    plan: &mut Plan,
    member: DecodedTraversalMember,
    emitter: EffectTraversalEmitter,
    recipe: &VarianceRecipe,
    types: &Vec<FieldTypes>,
) -> (alternatives: Option<Vec<PlanId>>)
    requires
        in_order(old(plan)@),
        types@.len() == recipe.constructors@.len(),
        emitter.mapping_expressions.made(old(plan)@),
    ensures
        ({
            let expected = alternatives_effected(
                member,
                emitter,
                recipe.constructors@,
                types@,
                recipe.constructors@.len(),
                old(plan)@,
            );
            match alternatives {
                Some(alternatives) => {
                    &&& expected == Some((final(plan)@, alternatives@))
                    &&& in_order(final(plan)@)
                    &&& continues(old(plan)@, final(plan)@)
                    &&& makes_all(final(plan)@, alternatives@, Sort::Alternative)
                },
                None => expected is None,
            }
        }),
{
    let mut alternatives: Vec<PlanId> = Vec::new();
    let mut index: usize = 0;
    while index < recipe.constructors.len()
        invariant
            index <= recipe.constructors.len(),
            types@.len() == recipe.constructors@.len(),
            continues(old(plan)@, plan@),
            in_order(plan@),
            emitter.mapping_expressions.made(old(plan)@),
            makes_all(plan@, alternatives@, Sort::Alternative),
            alternatives_effected(
                member,
                emitter,
                recipe.constructors@,
                types@,
                index as nat,
                old(plan)@,
            ) == Some((plan@, alternatives@)),
        decreases recipe.constructors.len() - index,
    {
        let alternative = emit_traversal_alternative(
            plan,
            member,
            emitter,
            &recipe.constructors[index],
            &types[index],
        );
        index += 1;
        if alternative.is_none() {
            proof {
                lemma_alternatives_fail(
                    member,
                    emitter,
                    recipe.constructors@,
                    types@,
                    index as nat,
                    recipe.constructors@.len(),
                    old(plan)@,
                );
            }
            return None;
        }
        alternatives.push(alternative?);
    }
    Some(alternatives)
}

/// Binders for the mappings of a member, with their variables.
pub struct MappingBinders {
    pub plan: Seq<Step>,
    pub binders: Seq<PlanId>,
    pub expressions: Mappings<PlanId>,
}

/// Binders for the mappings of a member.
pub open spec fn mapping_binders(mappings: Mappings<TypeId>, plan: Seq<Step>) -> MappingBinders {
    match mappings {
        Mappings::Traversable(mapping) => {
            let function = stepped(plan, Step::Binder { name: "function"@, type_id: mapping });
            let expression = stepped(function.plan, Step::Variable { binder: function.id });
            MappingBinders {
                plan: expression.plan,
                binders: seq![function.id],
                expressions: Mappings::Traversable(expression.id),
            }
        },
        Mappings::Bitraversable { first, second } => {
            let first = stepped(plan, Step::Binder { name: "firstFunction"@, type_id: first });
            let second = stepped(
                first.plan,
                Step::Binder { name: "secondFunction"@, type_id: second },
            );
            let left = stepped(second.plan, Step::Variable { binder: first.id });
            let right = stepped(left.plan, Step::Variable { binder: second.id });
            MappingBinders {
                plan: right.plan,
                binders: seq![first.id, second.id],
                expressions: Mappings::Bitraversable { first: left.id, second: right.id },
            }
        },
    }
}

fn bind_mappings(plan: &mut Plan, mappings: Mappings<TypeId>) -> (bound: (
    Vec<PlanId>,
    Mappings<PlanId>,
))
    requires
        in_order(old(plan)@),
    ensures
        in_order(final(plan)@),
        continues(old(plan)@, final(plan)@),
        makes_all(final(plan)@, bound.0@, Sort::Binder),
        bound.1.made(final(plan)@),
        (MappingBinders { plan: final(plan)@, binders: bound.0@, expressions: bound.1 })
            == mapping_binders(mappings, old(plan)@),
{
    let mut binders: Vec<PlanId> = Vec::new();
    match mappings {
        Mappings::Traversable(mapping) => {
            let function = plan.variable_binder("function", mapping);
            let expression = plan.variable(function);
            binders.push(function);
            assert(binders@ =~= seq![function]);
            (binders, Mappings::Traversable(expression))
        },
        Mappings::Bitraversable { first, second } => {
            let first = plan.variable_binder("firstFunction", first);
            let second = plan.variable_binder("secondFunction", second);
            let left = plan.variable(first);
            let right = plan.variable(second);
            binders.push(first);
            binders.push(second);
            assert(binders@ =~= seq![first, second]);
            (binders, Mappings::Bitraversable { first: left, second: right })
        },
    }
}

/// The traversal of a type: a function of the mappings and the value, with one
/// alternative for each constructor.
pub open spec fn type_effected(
    member: DecodedTraversalMember,
    recipe: Seq<ConstructorRecipe>,
    types: Seq<FieldTypes>,
    known: KnownTerms,
    plan: Seq<Step>,
) -> Option<Emission> {
    let mapped = mapping_binders(member.mappings, plan);
    let value = stepped(mapped.plan, Step::Binder { name: "value"@, type_id: member.source_type });
    let scrutinee = stepped(value.plan, Step::Variable { binder: value.id });
    let emitter = EffectTraversalEmitter {
        mapping_expressions: mapped.expressions,
        effect: member.effect,
        known,
    };
    match alternatives_effected(member, emitter, recipe, types, recipe.len(), scrutinee.plan) {
        Some((after, alternatives)) => {
            let body = stepped(
                after,
                Step::Case { type_id: member.result_type, scrutinee: scrutinee.id, alternatives },
            );
            Some(
                stepped(
                    body.plan,
                    Step::Lambda {
                        planned: plain_type(member.function_type),
                        binders: mapped.binders.push(value.id),
                        body: body.id,
                    },
                ),
            )
        },
        None => None,
    }
}

/// Emits the traversal of a type.
pub fn emit_variance_traversal(
    plan: &mut Plan,
    member: DecodedTraversalMember,
    recipe: &VarianceRecipe,
    types: &Vec<FieldTypes>,
    known: KnownTerms,
) -> (traversal: Option<PlanId>)
    requires
        in_order(old(plan)@),
        types@.len() == recipe.constructors@.len(),
    ensures
        emitted(
            old(plan)@,
            final(plan)@,
            type_effected(member, recipe.constructors@, types@, known, old(plan)@),
            traversal,
        ),
{
    let (mut binders, mapping_expressions) = bind_mappings(plan, member.mappings);
    let value = plan.variable_binder("value", member.source_type);
    let scrutinee = plan.variable(value);
    binders.push(value);
    let emitter = EffectTraversalEmitter { mapping_expressions, effect: member.effect, known };
    let alternatives = emit_alternatives(plan, member, emitter, recipe, types)?;
    let body = plan.case(member.result_type, scrutinee, alternatives);
    Some(plan.lambda(PlanType::plain(member.function_type), binders, body))
}

// Sequences

/// An argument of an applied type.
#[derive(Clone, Copy, Debug, PartialEq, Eq, Structural)]
pub enum ApplicationArgument {
    Kind(TypeId),
    Type(TypeId),
}

/// The last arguments of the source, which a sequence has effects in: one, or two.
pub open spec fn sequence_types(traversal: TraversalKind, arguments: Seq<ApplicationArgument>) -> Option<
    Seq<TypeId>,
> {
    let count = arguments.len();
    match traversal {
        TraversalKind::Traversable => if count >= 1 && arguments[count - 1] is Type {
            Some(seq![arguments[count - 1]->Type_0])
        } else {
            None
        },
        TraversalKind::Bitraversable => if count >= 2 && arguments[count - 1] is Type
            && arguments[count - 2] is Type {
            Some(seq![arguments[count - 2]->Type_0, arguments[count - 1]->Type_0])
        } else {
            None
        },
    }
}

/// The types of the identities that a sequence traverses with.
pub fn identity_types(traversal: TraversalKind, arguments: &Vec<ApplicationArgument>) -> (types: Option<
    Vec<TypeId>,
>)
    ensures
        match types {
            Some(types) => sequence_types(traversal, arguments@) == Some(types@),
            None => sequence_types(traversal, arguments@) is None,
        },
{
    let count: usize = arguments.len();
    let mut types: Vec<TypeId> = Vec::new();
    match traversal {
        TraversalKind::Traversable => {
            if count < 1 {
                return None;
            }
            match arguments[count - 1] {
                ApplicationArgument::Type(effect) => {
                    types.push(effect);
                    assert(types@ =~= seq![effect]);
                    Some(types)
                },
                ApplicationArgument::Kind(_) => None,
            }
        },
        TraversalKind::Bitraversable => {
            if count < 2 {
                return None;
            }
            match (arguments[count - 2], arguments[count - 1]) {
                (ApplicationArgument::Type(first), ApplicationArgument::Type(second)) => {
                    types.push(first);
                    types.push(second);
                    assert(types@ =~= seq![first, second]);
                    Some(types)
                },
                _ => None,
            }
        },
    }
}

/// A traversal applied to the first identities.
pub open spec fn identities_applied(types: Seq<TypeId>, count: nat, operation: Emission) -> Emission
    decreases count,
{
    if count == 0 || count > types.len() {
        operation
    } else {
        let before = identities_applied(types, (count - 1) as nat, operation);
        let type_id = types[count - 1];
        let input = stepped(
            before.plan,
            Step::Binder { name: numbered("effect"@, (count - 1) as nat), type_id },
        );
        let value = stepped(input.plan, Step::Variable { binder: input.id });
        let identity = stepped(
            value.plan,
            Step::Lambda {
                planned: arrow_type(type_id, type_id),
                binders: seq![input.id],
                body: value.id,
            },
        );
        made(identity.plan, before.id).applied(identity.id)
    }
}

/// The sequence of a value: its traversal with the identity for each parameter.
pub open spec fn sequenced(
    operation: (FileId, TermItemId),
    source: TypeId,
    types: Seq<TypeId>,
    result: TypeId,
    plan: Seq<Step>,
) -> Emission {
    let value = stepped(plan, Step::Binder { name: "value"@, type_id: source });
    let variable = stepped(value.plan, Step::Variable { binder: value.id });
    let reference = stepped(variable.plan, Step::Reference { resolution: operation });
    let body = identities_applied(types, types.len(), reference).applied(variable.id).as_type(
        plain_type(result),
    );
    stepped(
        body.plan,
        Step::Lambda {
            planned: arrow_type(source, result),
            binders: seq![value.id],
            body: body.id,
        },
    )
}

/// Emits a sequence, which delegates to the traversal and so avoids a second
/// structural one.
pub fn emit_sequence(
    plan: &mut Plan,
    operation: (FileId, TermItemId),
    source: TypeId,
    types: &Vec<TypeId>,
    result: TypeId,
) -> (sequence: PlanId)
    requires
        in_order(old(plan)@),
    ensures
        in_order(final(plan)@),
        makes(final(plan)@, sequence, Sort::Expression),
        made(final(plan)@, sequence) == sequenced(operation, source, types@, result, old(plan)@),
{
    let value = plan.variable_binder("value", source);
    let variable = plan.variable(value);
    let reference = plan.term_reference(operation);
    let ghost begun = made(plan@, reference);
    let mut applied = reference;
    let mut index: usize = 0;
    while index < types.len()
        invariant
            index <= types.len(),
            in_order(plan@),
            makes(plan@, value, Sort::Binder),
            makes(plan@, variable, Sort::Expression),
            makes(plan@, applied, Sort::Expression),
            made(plan@, applied) == identities_applied(types@, index as nat, begun),
        decreases types.len() - index,
    {
        let name = numbered_name("effect", index);
        let input = plan.variable_binder(name.as_str(), types[index]);
        let identity_value = plan.variable(input);
        let identity = plan.unary_lambda(
            PlanType::arrow(types[index], types[index]),
            input,
            identity_value,
        );
        applied = plan.apply(applied, identity);
        index += 1;
    }
    let applied = plan.apply(applied, variable);
    let body = plan.subtype(applied, PlanType::plain(result));
    plan.unary_lambda(PlanType::arrow(source, result), value, body)
}

// Members

/// What a member of the class is.
#[derive(Clone, Copy, Debug, PartialEq, Eq, Structural)]
pub enum MemberKind {
    Traverse,
    Sequence,
}

/// The members of the class: the traversal and the sequence.
pub open spec fn traversal_terms(traversal: TraversalKind, known: KnownTerms) -> (
    Option<(FileId, TermItemId)>,
    Option<(FileId, TermItemId)>,
) {
    match traversal {
        TraversalKind::Traversable => (known.traverse, known.sequence),
        TraversalKind::Bitraversable => (known.bitraverse, known.bisequence),
    }
}

/// The operation that a sequence member delegates to, where both are known.
pub fn sequence_operation(traversal: TraversalKind, known: &KnownTerms) -> (operation: Option<
    (FileId, TermItemId),
>)
    ensures
        operation == (match traversal_terms(traversal, *known) {
            (Some(operation), Some(_)) => Some(operation),
            _ => None,
        }),
{
    let terms = match traversal {
        TraversalKind::Traversable => (known.traverse, known.sequence),
        TraversalKind::Bitraversable => (known.bitraverse, known.bisequence),
    };
    match terms {
        (Some(operation), Some(_)) => Some(operation),
        _ => None,
    }
}

/// What a member is, by its identity.
pub open spec fn member_kind(
    traversal: TraversalKind,
    known: KnownTerms,
    member: (FileId, TermItemId),
) -> Option<MemberKind> {
    let (operation, sequence) = traversal_terms(traversal, known);
    if operation == Some(member) {
        Some(MemberKind::Traverse)
    } else if sequence == Some(member) {
        Some(MemberKind::Sequence)
    } else {
        None
    }
}

/// The kinds are those of the members, and both are among them.
pub open spec fn covers_members(
    traversal: TraversalKind,
    known: KnownTerms,
    class_file: FileId,
    members: Seq<TermItemId>,
    kinds: Seq<MemberKind>,
) -> bool {
    &&& kinds.len() == members.len()
    &&& forall|i: int|
        0 <= i < members.len() ==> member_kind(
            traversal,
            known,
            (class_file, #[trigger] members[i]),
        ) == Some(kinds[i])
    &&& exists|i: int| 0 <= i < kinds.len() && #[trigger] kinds[i] is Traverse
    &&& exists|i: int| 0 <= i < kinds.len() && #[trigger] kinds[i] is Sequence
}

/// What each member of the class is, in the order of the class; none where a term
/// is not known, or where the class has other members or lacks one.
pub fn generate_traversal_members(
    traversal: TraversalKind,
    known: KnownTerms,
    class_file: FileId,
    members: &Vec<TermItemId>,
) -> (kinds: Option<Vec<MemberKind>>)
    ensures
        match kinds {
            Some(kinds) => covers_members(traversal, known, class_file, members@, kinds@),
            None => {
                let (operation, sequence) = traversal_terms(traversal, known);
                ||| operation is None || sequence is None
                ||| forall|kinds: Seq<MemberKind>|
                    !covers_members(traversal, known, class_file, members@, kinds)
            },
        },
{
    let (operation, sequence) = match traversal {
        TraversalKind::Traversable => (known.traverse, known.sequence),
        TraversalKind::Bitraversable => (known.bitraverse, known.bisequence),
    };
    let operation = operation?;
    let sequence = sequence?;
    let mut operation_generated = false;
    let mut sequence_generated = false;
    let mut kinds: Vec<MemberKind> = Vec::new();
    let mut index: usize = 0;
    while index < members.len()
        invariant
            index <= members.len(),
            kinds@.len() == index,
            traversal_terms(traversal, known) == (Some(operation), Some(sequence)),
            forall|i: int|
                0 <= i < index ==> member_kind(
                    traversal,
                    known,
                    (class_file, #[trigger] members@[i]),
                ) == Some(kinds@[i]),
            operation_generated == exists|i: int|
                0 <= i < kinds@.len() && #[trigger] kinds@[i] is Traverse,
            sequence_generated == exists|i: int|
                0 <= i < kinds@.len() && #[trigger] kinds@[i] is Sequence,
        decreases members.len() - index,
    {
        let resolution = (class_file, members[index]);
        let ghost before = kinds@;
        let kind = if is_term(operation, resolution) {
            operation_generated = true;
            MemberKind::Traverse
        } else if is_term(sequence, resolution) {
            sequence_generated = true;
            MemberKind::Sequence
        } else {
            assert(member_kind(traversal, known, (class_file, members@[index as int])) is None);
            return None;
        };
        kinds.push(kind);
        proof {
            assert(kinds@[index as int] == kind);
            assert forall|i: int| 0 <= i < before.len() implies before[i] == #[trigger] kinds@[i] by {
            }
            if exists|i: int| 0 <= i < before.len() && #[trigger] before[i] is Traverse {
                let i = choose|i: int| 0 <= i < before.len() && #[trigger] before[i] is Traverse;
                assert(kinds@[i] is Traverse);
            }
            if exists|i: int| 0 <= i < before.len() && #[trigger] before[i] is Sequence {
                let i = choose|i: int| 0 <= i < before.len() && #[trigger] before[i] is Sequence;
                assert(kinds@[i] is Sequence);
            }
        }
        index += 1;
    }
    if !operation_generated || !sequence_generated {
        assert forall|others: Seq<MemberKind>| !covers_members(
            traversal,
            known,
            class_file,
            members@,
            others,
        ) by {
            if covers_members(traversal, known, class_file, members@, others) {
                assert forall|i: int| 0 <= i < others.len() implies others[i] == kinds@[i] by {
                    assert(member_kind(traversal, known, (class_file, members@[i])) == Some(
                        others[i],
                    ));
                }
                assert(others =~= kinds@);
            }
        }
        return None;
    }
    Some(kinds)
}

} // verus!
