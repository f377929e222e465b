//! Derived folds.

use super::super::types::{FileId, TypeId};
use super::field::{find_row_field, row_field, FieldType, RowField};
use super::plan::{
    bind_fields, continues, emitted, emitted_as, field_binders, group_continues, in_order, makes,
    makes_all, plain_type, stepped, Emission, KnownTerms, Plan, PlanId, PlanType,
    PlannedType, Sort, Step,
};
use super::variance::{
    BinaryApplicationArguments, ConstructorRecipe, RecordFieldRecipe, TraversalOperation,
    TraversalParameter, VarianceRecipe,
};
use crate::indexing::items::TermItemId;
use vstd::prelude::*;

verus! {

broadcast use group_continues;

#[derive(Clone, Copy, Debug, PartialEq, Eq, Structural)]
pub enum TraversalKind {
    Foldable,
    Bifoldable,
}

#[derive(Clone, Copy, Debug, PartialEq, Eq, Structural)]
pub enum FoldOperation {
    Right,
    Left,
    MapEach,
}

/// One value for each parameter.
#[allow(inconsistent_fields)]
#[derive(Clone, Copy, Debug, PartialEq, Eq, Structural)]
pub enum Mappings<T> {
    Foldable(T),
    Bifoldable { first: T, second: T },
}

impl<T> Mappings<T> {
    /// The value for a parameter.
    pub open spec fn of(self, parameter: TraversalParameter) -> Option<T> {
        match (self, parameter) {
            (Mappings::Foldable(function), TraversalParameter::First) => Some(function),
            (Mappings::Bifoldable { first, .. }, TraversalParameter::First) => Some(first),
            (Mappings::Bifoldable { second, .. }, TraversalParameter::Second) => Some(second),
            (Mappings::Foldable(_), TraversalParameter::Second) => None,
        }
    }
}

impl Mappings<PlanId> {
    pub fn mapping_for(self, parameter: TraversalParameter) -> (mapping: Option<PlanId>)
        ensures
            mapping == self.of(parameter),
    {
        match (self, parameter) {
            (Mappings::Foldable(function), TraversalParameter::First) => Some(function),
            (Mappings::Bifoldable { first, .. }, TraversalParameter::First) => Some(first),
            (Mappings::Bifoldable { second, .. }, TraversalParameter::Second) => Some(second),
            (Mappings::Foldable(_), TraversalParameter::Second) => None,
        }
    }

    /// The mappings have been made.
    pub open spec fn made(self, plan: Seq<Step>) -> bool {
        match self {
            Mappings::Foldable(function) => makes(plan, function, Sort::Expression),
            Mappings::Bifoldable { first, second } => makes(plan, first, Sort::Expression) && makes(
                plan,
                second,
                Sort::Expression,
            ),
        }
    }
}

/// Emits a fold.
#[derive(Clone, Copy, Debug)]
pub struct FoldEmitter {
    pub mapping_expressions: Mappings<PlanId>,
    pub operation: FoldOperation,
    pub accumulator_type: TypeId,
    pub known: KnownTerms,
}

/// The value was made, where there is one.
pub open spec fn optionally_made(id: Option<PlanId>, plan: Seq<Step>) -> bool {
    id matches Some(id) ==> makes(plan, id, Sort::Expression)
}

/// The plan with nothing more, which makes what has been made.
pub open spec fn made(plan: Seq<Step>, id: PlanId) -> Emission {
    Emission { plan, id }
}

impl FoldEmitter {
    /// The fold of the operation over a container.
    pub open spec fn unary_term(self) -> Option<(FileId, TermItemId)> {
        match self.operation {
            FoldOperation::Right => self.known.foldr,
            FoldOperation::Left => self.known.foldl,
            FoldOperation::MapEach => self.known.fold_map,
        }
    }

    /// The fold of the operation over a container of two types.
    pub open spec fn binary_term(self) -> Option<(FileId, TermItemId)> {
        match self.operation {
            FoldOperation::Right => self.known.bifoldr,
            FoldOperation::Left => self.known.bifoldl,
            FoldOperation::MapEach => self.known.bifold_map,
        }
    }

    /// The fold of a value, from the accumulator on where the operation has one.
    pub open spec fn folded(
        self,
        operation: TraversalOperation,
        value: PlanId,
        accumulator: Option<PlanId>,
        source: FieldType,
        plan: Seq<Step>,
    ) -> Option<Emission>
        decreases operation, 1nat,
    {
        match operation {
            TraversalOperation::Parameter { parameter } => self.parameter_folded(
                parameter,
                value,
                accumulator,
                plan,
            ),
            TraversalOperation::UnaryApplication { argument, .. } => self.unary_folded(
                *argument,
                value,
                accumulator,
                source,
                plan,
            ),
            TraversalOperation::BinaryApplication { arguments, .. } => self.binary_folded(
                arguments,
                value,
                accumulator,
                source,
                plan,
            ),
            TraversalOperation::Record { fields } => self.record_folded(
                fields,
                value,
                accumulator,
                source,
                plan,
            ),
            TraversalOperation::Function { .. } => None,
        }
    }

    /// The fold of a parameter's value: its mapping, applied.
    pub open spec fn parameter_folded(
        self,
        parameter: TraversalParameter,
        value: PlanId,
        accumulator: Option<PlanId>,
        plan: Seq<Step>,
    ) -> Option<Emission> {
        match (self.mapping_expressions.of(parameter), self.operation, accumulator) {
            (Some(mapping), FoldOperation::Right, Some(accumulator)) => Some(
                made(plan, mapping).applied(value).applied(accumulator).as_type(
                    plain_type(self.accumulator_type),
                ),
            ),
            (Some(mapping), FoldOperation::Left, Some(accumulator)) => Some(
                made(plan, mapping).applied(accumulator).applied(value).as_type(
                    plain_type(self.accumulator_type),
                ),
            ),
            (Some(mapping), FoldOperation::MapEach, _) => Some(
                made(plan, mapping).applied(value).as_type(plain_type(self.accumulator_type)),
            ),
            _ => None,
        }
    }

    /// The fold of a container, with a function that folds each element.
    pub open spec fn unary_folded(
        self,
        argument: TraversalOperation,
        value: PlanId,
        accumulator: Option<PlanId>,
        source: FieldType,
        plan: Seq<Step>,
    ) -> Option<Emission>
        decreases argument, 3nat,
    {
        match source.applied() {
            Some((_, source_argument)) => {
                match (self.transformer(argument, source_argument, plan), self.unary_term()) {
                    (Some(transformer), Some(resolution)) => self.delegated(
                        stepped(transformer.plan, Step::Reference { resolution }).applied(
                            transformer.id,
                        ),
                        value,
                        accumulator,
                    ),
                    _ => None,
                }
            },
            None => None,
        }
    }

    /// The fold of a container of two types, with functions that fold or ignore
    /// each element.
    pub open spec fn binary_folded(
        self,
        arguments: BinaryApplicationArguments,
        value: PlanId,
        accumulator: Option<PlanId>,
        source: FieldType,
        plan: Seq<Step>,
    ) -> Option<Emission>
        decreases arguments, 4nat,
    {
        match source.applied() {
            Some((source_function, source_second)) => match source_function.applied() {
                Some((_, source_first)) => {
                    let first = match arguments {
                        BinaryApplicationArguments::First(first) => self.transformer(
                            *first,
                            source_first,
                            plan,
                        ),
                        BinaryApplicationArguments::Second(_) => self.ignoring(source_first, plan),
                        BinaryApplicationArguments::Both { first, .. } => self.transformer(
                            *first,
                            source_first,
                            plan,
                        ),
                    };
                    match first {
                        Some(first) => {
                            let second = match arguments {
                                BinaryApplicationArguments::First(_) => self.ignoring(
                                    source_second,
                                    first.plan,
                                ),
                                BinaryApplicationArguments::Second(second) => self.transformer(
                                    *second,
                                    source_second,
                                    first.plan,
                                ),
                                BinaryApplicationArguments::Both { second, .. } => {
                                    self.transformer(*second, source_second, first.plan)
                                },
                            };
                            match (second, self.binary_term()) {
                                (Some(second), Some(resolution)) => self.delegated(
                                    stepped(second.plan, Step::Reference { resolution }).applied(
                                        first.id,
                                    ).applied(second.id),
                                    value,
                                    accumulator,
                                ),
                                _ => None,
                            }
                        },
                        None => None,
                    }
                },
                None => None,
            },
            None => None,
        }
    }

    /// The fold of a record's fields, in order.
    pub open spec fn record_folded(
        self,
        fields: Vec<RecordFieldRecipe>,
        value: PlanId,
        accumulator: Option<PlanId>,
        source: FieldType,
        plan: Seq<Step>,
    ) -> Option<Emission>
        decreases fields, fields@.len() + 1,
    {
        match source.record() {
            Some(row) => if !has_labels(row, fields@) {
                None
            } else {
                match (self.operation, accumulator) {
                    (FoldOperation::Right, Some(accumulator)) => self.record_right(
                        fields,
                        fields@.len(),
                        value,
                        row,
                        made(plan, accumulator),
                    ),
                    (FoldOperation::Left, Some(accumulator)) => self.record_left(
                        fields,
                        fields@.len(),
                        value,
                        row,
                        made(plan, accumulator),
                    ),
                    (FoldOperation::MapEach, _) => match self.record_map(
                        fields,
                        fields@.len(),
                        value,
                        row,
                        plan,
                    ) {
                        Some((after, contributions)) => self.combined(contributions, after),
                        None => None,
                    },
                    _ => None,
                }
            },
            None => None,
        }
    }

    /// A fold that has its transformers, applied to the accumulator, where the
    /// operation has one, and the value.
    pub open spec fn delegated(
        self,
        function: Emission,
        value: PlanId,
        accumulator: Option<PlanId>,
    ) -> Option<Emission> {
        match (self.operation, accumulator) {
            (FoldOperation::MapEach, _) => Some(
                function.applied(value).as_type(plain_type(self.accumulator_type)),
            ),
            (_, Some(accumulator)) => Some(
                function.applied(accumulator).applied(value).as_type(
                    plain_type(self.accumulator_type),
                ),
            ),
            _ => None,
        }
    }

    /// The type of a function that folds one element.
    pub open spec fn transformer_type(self, source: TypeId) -> PlannedType {
        PlannedType {
            arguments: match self.operation {
                FoldOperation::Right => seq![source, self.accumulator_type],
                FoldOperation::Left => seq![self.accumulator_type, source],
                FoldOperation::MapEach => seq![source],
            },
            effect: None,
            result: self.accumulator_type,
        }
    }

    /// The function from an element and, where the operation has one, an
    /// accumulator to the body.
    pub open spec fn function_of(
        self,
        source: TypeId,
        element: PlanId,
        accumulator: Option<PlanId>,
        body: Emission,
    ) -> Emission {
        stepped(
            body.plan,
            Step::Lambda {
                planned: self.transformer_type(source),
                binders: match (self.operation, accumulator) {
                    (FoldOperation::Right, Some(accumulator)) => seq![element, accumulator],
                    (FoldOperation::Left, Some(accumulator)) => seq![accumulator, element],
                    _ => seq![element],
                },
                body: body.id,
            },
        )
    }

    /// A function that folds one element.
    pub open spec fn transformer(
        self,
        operation: TraversalOperation,
        source: FieldType,
        plan: Seq<Step>,
    ) -> Option<Emission>
        decreases operation, 2nat,
    {
        let element = stepped(
            plan,
            Step::Binder { name: "element"@, type_id: source.identity() },
        );
        let value = stepped(element.plan, Step::Variable { binder: element.id });
        let accumulator = stepped(
            value.plan,
            Step::Binder { name: "accumulator"@, type_id: self.accumulator_type },
        );
        let initial = stepped(accumulator.plan, Step::Variable { binder: accumulator.id });
        let body = match self.operation {
            FoldOperation::MapEach => self.folded(operation, value.id, None, source, value.plan),
            _ => self.folded(operation, value.id, Some(initial.id), source, initial.plan),
        };
        match body {
            Some(body) => Some(
                self.function_of(source.identity(), element.id, Some(accumulator.id), body),
            ),
            None => None,
        }
    }

    /// A function that ignores an element.
    pub open spec fn ignoring(self, source: FieldType, plan: Seq<Step>) -> Option<Emission> {
        let element = stepped(
            plan,
            Step::Binder { name: "ignored"@, type_id: source.identity() },
        );
        let accumulator = stepped(
            element.plan,
            Step::Binder { name: "accumulator"@, type_id: self.accumulator_type },
        );
        let body = match self.operation {
            FoldOperation::MapEach => self.empty(element.plan),
            _ => Some(stepped(accumulator.plan, Step::Variable { binder: accumulator.id })),
        };
        match body {
            Some(body) => Some(
                self.function_of(source.identity(), element.id, Some(accumulator.id), body),
            ),
            None => None,
        }
    }

    /// The neutral element.
    pub open spec fn empty(self, plan: Seq<Step>) -> Option<Emission> {
        match self.known.mempty {
            Some(resolution) => Some(
                stepped(plan, Step::Reference { resolution }).as_type(
                    plain_type(self.accumulator_type),
                ),
            ),
            None => None,
        }
    }

    /// The fold of a record's field.
    pub open spec fn field_folded(
        self,
        field: RecordFieldRecipe,
        value: PlanId,
        row: Seq<RowField>,
        accumulator: Option<PlanId>,
        plan: Seq<Step>,
    ) -> Option<Emission>
        decreases field, 0nat,
    {
        match row_field(row, field.label@) {
            Some(source) => {
                let accessed = stepped(
                    plan,
                    Step::RecordAccess {
                        record: value,
                        label: field.label,
                        type_id: source.identity(),
                    },
                );
                self.folded(field.operation, accessed.id, accumulator, source, accessed.plan)
            },
            None => None,
        }
    }

    /// The fold of the first fields from the right: the last of them is folded
    /// first.
    pub open spec fn record_right(
        self,
        fields: Vec<RecordFieldRecipe>,
        count: nat,
        value: PlanId,
        row: Seq<RowField>,
        accumulated: Emission,
    ) -> Option<Emission>
        decreases fields, count,
    {
        if count == 0 || count > fields@.len() {
            Some(accumulated)
        } else {
            match self.field_folded(
                fields@[count - 1],
                value,
                row,
                Some(accumulated.id),
                accumulated.plan,
            ) {
                Some(folded) => self.record_right(fields, (count - 1) as nat, value, row, folded),
                None => None,
            }
        }
    }

    /// The fold of the first fields from the left: the last of them is folded last.
    pub open spec fn record_left(
        self,
        fields: Vec<RecordFieldRecipe>,
        count: nat,
        value: PlanId,
        row: Seq<RowField>,
        accumulated: Emission,
    ) -> Option<Emission>
        decreases fields, count,
    {
        if count == 0 || count > fields@.len() {
            Some(accumulated)
        } else {
            match self.record_left(fields, (count - 1) as nat, value, row, accumulated) {
                Some(before) => self.field_folded(
                    fields@[count - 1],
                    value,
                    row,
                    Some(before.id),
                    before.plan,
                ),
                None => None,
            }
        }
    }

    /// What each of the first fields contributes.
    pub open spec fn record_map(
        self,
        fields: Vec<RecordFieldRecipe>,
        count: nat,
        value: PlanId,
        row: Seq<RowField>,
        plan: Seq<Step>,
    ) -> Option<(Seq<Step>, Seq<PlanId>)>
        decreases fields, count,
    {
        if count == 0 || count > fields@.len() {
            Some((plan, Seq::empty()))
        } else {
            match self.record_map(fields, (count - 1) as nat, value, row, plan) {
                Some((before, contributions)) => match self.field_folded(
                    fields@[count - 1],
                    value,
                    row,
                    None,
                    before,
                ) {
                    Some(folded) => Some((folded.plan, contributions.push(folded.id))),
                    None => None,
                },
                None => None,
            }
        }
    }

    /// The first contributions in front of what follows, associated to the right.
    pub open spec fn appended(
        self,
        contributions: Seq<PlanId>,
        count: nat,
        accumulated: Emission,
    ) -> Option<Emission>
        decreases count,
    {
        if count == 0 || count > contributions.len() {
            Some(accumulated)
        } else {
            match self.known.append {
                Some(resolution) => self.appended(
                    contributions,
                    (count - 1) as nat,
                    stepped(accumulated.plan, Step::Reference { resolution }).applied(
                        contributions[count - 1],
                    ).applied(accumulated.id).as_type(plain_type(self.accumulator_type)),
                ),
                None => None,
            }
        }
    }

    /// All contributions, in order; the neutral element where there are none.
    pub open spec fn combined(self, contributions: Seq<PlanId>, plan: Seq<Step>) -> Option<Emission> {
        if contributions.len() == 0 {
            self.empty(plan)
        } else {
            self.appended(
                contributions,
                (contributions.len() - 1) as nat,
                made(plan, contributions.last()),
            )
        }
    }
}

/// The row has a field for every label.
pub open spec fn has_labels(row: Seq<RowField>, fields: Seq<RecordFieldRecipe>) -> bool {
    forall|i: int| 0 <= i < fields.len() ==> row_field(row, (#[trigger] fields[i]).label@) is Some
}

fn check_labels(row: &Vec<RowField>, fields: &Vec<RecordFieldRecipe>) -> (complete: bool)
    ensures
        complete == has_labels(row@, fields@),
{
    let mut index: usize = 0;
    while index < fields.len()
        invariant
            index <= fields.len(),
            forall|i: int|
                0 <= i < index ==> row_field(row@, (#[trigger] fields@[i]).label@) is Some,
        decreases fields.len() - index,
    {
        if find_row_field(row, fields[index].label.as_str()).is_none() {
            assert(row_field(row@, fields@[index as int].label@) is None);
            return false;
        }
        index += 1;
    }
    true
}

impl FoldEmitter {
    /// What the emitter and its arguments have to be for a plan.
    pub open spec fn ready(
        self,
        plan: Seq<Step>,
        value: PlanId,
        accumulator: Option<PlanId>,
    ) -> bool {
        &&& in_order(plan)
        &&& self.mapping_expressions.made(plan)
        &&& makes(plan, value, Sort::Expression)
        &&& optionally_made(accumulator, plan)
    }

    /// Emits the fold of a value.
    pub fn emit_operation(
        self,
        plan: &mut Plan,
        operation: &TraversalOperation,
        value: PlanId,
        accumulator: Option<PlanId>,
        source: &FieldType,
    ) -> (folded: Option<PlanId>)
        requires
            self.ready(old(plan)@, value, accumulator),
        ensures
            emitted(
                old(plan)@,
                final(plan)@,
                self.folded(*operation, value, accumulator, *source, old(plan)@),
                folded,
            ),
        decreases *operation, 1nat,
    {
        match operation {
            TraversalOperation::Parameter { parameter } => self.emit_parameter(
                plan,
                *parameter,
                value,
                accumulator,
            ),
            TraversalOperation::UnaryApplication { argument, .. } => self.emit_unary_fold(
                plan,
                argument,
                value,
                accumulator,
                source,
            ),
            TraversalOperation::BinaryApplication { arguments, .. } => self.emit_binary_fold(
                plan,
                arguments,
                value,
                accumulator,
                source,
            ),
            TraversalOperation::Record { fields } => self.emit_record_fold(
                plan,
                fields,
                value,
                accumulator,
                source,
            ),
            // Function operations are rejected during variance analysis.
            TraversalOperation::Function { .. } => None,
        }
    }

    fn emit_parameter(
        self,
        plan: &mut Plan,
        parameter: TraversalParameter,
        value: PlanId,
        accumulator: Option<PlanId>,
    ) -> (folded: Option<PlanId>)
        requires
            self.ready(old(plan)@, value, accumulator),
        ensures
            emitted(
                old(plan)@,
                final(plan)@,
                self.parameter_folded(parameter, value, accumulator, old(plan)@),
                folded,
            ),
    {
        let mapping = self.mapping_expressions.mapping_for(parameter)?;
        let applied = match self.operation {
            FoldOperation::Right => {
                let accumulator = accumulator?;
                let applied = plan.apply(mapping, value);
                plan.apply(applied, accumulator)
            },
            FoldOperation::Left => {
                let accumulator = accumulator?;
                let applied = plan.apply(mapping, accumulator);
                plan.apply(applied, value)
            },
            FoldOperation::MapEach => plan.apply(mapping, value),
        };
        Some(plan.subtype(applied, PlanType::plain(self.accumulator_type)))
    }

    fn emit_unary_fold(
        self,
        plan: &mut Plan,
        argument: &TraversalOperation,
        value: PlanId,
        accumulator: Option<PlanId>,
        source: &FieldType,
    ) -> (folded: Option<PlanId>)
        requires
            self.ready(old(plan)@, value, accumulator),
        ensures
            emitted(
                old(plan)@,
                final(plan)@,
                self.unary_folded(*argument, value, accumulator, *source, old(plan)@),
                folded,
            ),
        decreases *argument, 3nat,
    {
        let (_, source_argument) = source.decompose_type_application()?;
        let transformer = self.emit_transformer(plan, argument, source_argument)?;
        let resolution = match self.operation {
            FoldOperation::Right => self.known.foldr,
            FoldOperation::Left => self.known.foldl,
            FoldOperation::MapEach => self.known.fold_map,
        };
        let resolution = resolution?;
        let reference = plan.term_reference(resolution);
        let function = plan.apply(reference, transformer);
        self.emit_delegated(plan, function, value, accumulator)
    }

    fn emit_binary_fold(
        self,
        plan: &mut Plan,
        arguments: &BinaryApplicationArguments,
        value: PlanId,
        accumulator: Option<PlanId>,
        source: &FieldType,
    ) -> (folded: Option<PlanId>)
        requires
            self.ready(old(plan)@, value, accumulator),
        ensures
            emitted(
                old(plan)@,
                final(plan)@,
                self.binary_folded(*arguments, value, accumulator, *source, old(plan)@),
                folded,
            ),
        decreases *arguments, 4nat,
    {
        let (source_function, source_second) = source.decompose_type_application()?;
        let (_, source_first) = source_function.decompose_type_application()?;
        let first_transformer = match arguments {
            BinaryApplicationArguments::First(first) => self.emit_transformer(
                plan,
                first,
                source_first,
            ),
            BinaryApplicationArguments::Second(_) => self.emit_ignoring_transformer(
                plan,
                source_first,
            ),
            BinaryApplicationArguments::Both { first, .. } => self.emit_transformer(
                plan,
                first,
                source_first,
            ),
        };
        let first_transformer = first_transformer?;
        // A container of two types still requires a transformer for an inactive
        // argument. A directional fold returns the accumulator unchanged; the other
        // one returns the neutral element.
        let second_transformer = match arguments {
            BinaryApplicationArguments::First(_) => self.emit_ignoring_transformer(
                plan,
                source_second,
            ),
            BinaryApplicationArguments::Second(second) => self.emit_transformer(
                plan,
                second,
                source_second,
            ),
            BinaryApplicationArguments::Both { second, .. } => self.emit_transformer(
                plan,
                second,
                source_second,
            ),
        };
        let second_transformer = second_transformer?;
        let resolution = match self.operation {
            FoldOperation::Right => self.known.bifoldr,
            FoldOperation::Left => self.known.bifoldl,
            FoldOperation::MapEach => self.known.bifold_map,
        };
        let resolution = resolution?;
        let reference = plan.term_reference(resolution);
        let function = plan.apply(reference, first_transformer);
        let function = plan.apply(function, second_transformer);
        self.emit_delegated(plan, function, value, accumulator)
    }

    fn emit_record_fold(
        self,
        plan: &mut Plan,
        fields: &Vec<RecordFieldRecipe>,
        value: PlanId,
        accumulator: Option<PlanId>,
        source: &FieldType,
    ) -> (folded: Option<PlanId>)
        requires
            self.ready(old(plan)@, value, accumulator),
        ensures
            emitted(
                old(plan)@,
                final(plan)@,
                self.record_folded(*fields, value, accumulator, *source, old(plan)@),
                folded,
            ),
        decreases *fields, 1nat,
    {
        let row = source.extract_record_row()?;
        if !check_labels(row, fields) {
            return None;
        }
        match self.operation {
            FoldOperation::Right => {
                let accumulator = accumulator?;
                self.emit_record_right(plan, fields, value, row, accumulator)
            },
            FoldOperation::Left => {
                let accumulator = accumulator?;
                self.emit_record_left(plan, fields, value, row, accumulator)
            },
            FoldOperation::MapEach => self.emit_record_map(plan, fields, value, row),
        }
    }

    fn emit_delegated(
        self,
        plan: &mut Plan,
        function: PlanId,
        value: PlanId,
        accumulator: Option<PlanId>,
    ) -> (folded: Option<PlanId>)
        requires
            self.ready(old(plan)@, value, accumulator),
            makes(old(plan)@, function, Sort::Expression),
        ensures
            emitted(
                old(plan)@,
                final(plan)@,
                self.delegated(made(old(plan)@, function), value, accumulator),
                folded,
            ),
    {
        let function = match self.operation {
            FoldOperation::MapEach => function,
            _ => {
                let accumulator = accumulator?;
                plan.apply(function, accumulator)
            },
        };
        let folded = plan.apply(function, value);
        Some(plan.subtype(folded, PlanType::plain(self.accumulator_type)))
    }

    fn emit_function(
        self,
        plan: &mut Plan,
        source: TypeId,
        element: PlanId,
        accumulator: Option<PlanId>,
        body: PlanId,
    ) -> (function: PlanId)
        requires
            in_order(old(plan)@),
            makes(old(plan)@, element, Sort::Binder),
            accumulator matches Some(accumulator) ==> makes(old(plan)@, accumulator, Sort::Binder),
            makes(old(plan)@, body, Sort::Expression),
            self.operation is MapEach || accumulator is Some,
        ensures
            in_order(final(plan)@),
            continues(old(plan)@, final(plan)@),
            makes(final(plan)@, function, Sort::Expression),
            made(final(plan)@, function) == self.function_of(
                source,
                element,
                accumulator,
                made(old(plan)@, body),
            ),
    {
        let mut binders: Vec<PlanId> = Vec::new();
        let mut arguments: Vec<TypeId> = Vec::new();
        match (self.operation, accumulator) {
            (FoldOperation::Right, Some(accumulator)) => {
                binders.push(element);
                binders.push(accumulator);
                arguments.push(source);
                arguments.push(self.accumulator_type);
                assert(binders@ =~= seq![element, accumulator]);
                assert(arguments@ =~= seq![source, self.accumulator_type]);
            },
            (FoldOperation::Left, Some(accumulator)) => {
                binders.push(accumulator);
                binders.push(element);
                arguments.push(self.accumulator_type);
                arguments.push(source);
                assert(binders@ =~= seq![accumulator, element]);
                assert(arguments@ =~= seq![self.accumulator_type, source]);
            },
            _ => {
                binders.push(element);
                arguments.push(source);
                assert(binders@ =~= seq![element]);
                assert(arguments@ =~= seq![source]);
            },
        }
        let planned = PlanType { arguments, effect: None, result: self.accumulator_type };
        plan.lambda(planned, binders, body)
    }

    fn emit_transformer(
        self,
        plan: &mut Plan,
        operation: &TraversalOperation,
        source: &FieldType,
    ) -> (transformer: Option<PlanId>)
        requires
            in_order(old(plan)@),
            self.mapping_expressions.made(old(plan)@),
        ensures
            emitted(
                old(plan)@,
                final(plan)@,
                self.transformer(*operation, *source, old(plan)@),
                transformer,
            ),
        decreases *operation, 2nat,
    {
        let element = plan.variable_binder("element", source.id());
        let value = plan.variable(element);
        let (accumulator, initial) = match self.operation {
            FoldOperation::MapEach => (None, None),
            _ => {
                let accumulator = plan.variable_binder("accumulator", self.accumulator_type);
                let initial = plan.variable(accumulator);
                (Some(accumulator), Some(initial))
            },
        };
        let body = self.emit_operation(plan, operation, value, initial, source)?;
        Some(self.emit_function(plan, source.id(), element, accumulator, body))
    }

    fn emit_ignoring_transformer(self, plan: &mut Plan, source: &FieldType) -> (transformer: Option<
        PlanId,
    >)
        requires
            in_order(old(plan)@),
        ensures
            emitted(
                old(plan)@,
                final(plan)@,
                self.ignoring(*source, old(plan)@),
                transformer,
            ),
    {
        let element = plan.variable_binder("ignored", source.id());
        let (accumulator, body) = match self.operation {
            FoldOperation::MapEach => (None, self.emit_mempty(plan)),
            _ => {
                let accumulator = plan.variable_binder("accumulator", self.accumulator_type);
                let body = plan.variable(accumulator);
                (Some(accumulator), Some(body))
            },
        };
        let body = body?;
        Some(self.emit_function(plan, source.id(), element, accumulator, body))
    }

    fn emit_mempty(self, plan: &mut Plan) -> (empty: Option<PlanId>)
        requires
            in_order(old(plan)@),
        ensures
            emitted(old(plan)@, final(plan)@, self.empty(old(plan)@), empty),
    {
        let mempty = self.known.mempty?;
        let mempty = plan.term_reference(mempty);
        Some(plan.subtype(mempty, PlanType::plain(self.accumulator_type)))
    }

    fn emit_field(
        self,
        plan: &mut Plan,
        field: &RecordFieldRecipe,
        value: PlanId,
        row: &Vec<RowField>,
        accumulator: Option<PlanId>,
    ) -> (folded: Option<PlanId>)
        requires
            self.ready(old(plan)@, value, accumulator),
        ensures
            emitted(
                old(plan)@,
                final(plan)@,
                self.field_folded(*field, value, row@, accumulator, old(plan)@),
                folded,
            ),
        decreases *field, 0nat,
    {
        let source = find_row_field(row, field.label.as_str())?;
        let accessed = plan.record_access(value, &field.label, source.id());
        self.emit_operation(plan, &field.operation, accessed, accumulator, source)
    }

    fn emit_record_right(
        self,
        plan: &mut Plan,
        fields: &Vec<RecordFieldRecipe>,
        value: PlanId,
        row: &Vec<RowField>,
        accumulator: PlanId,
    ) -> (folded: Option<PlanId>)
        requires
            self.ready(old(plan)@, value, Some(accumulator)),
        ensures
            emitted(
                old(plan)@,
                final(plan)@,
                self.record_right(
                    *fields,
                    fields@.len(),
                    value,
                    row@,
                    made(old(plan)@, accumulator),
                ),
                folded,
            ),
        decreases *fields, 0nat,
    {
        let mut accumulated = accumulator;
        let mut index: usize = fields.len();
        while index > 0
            invariant
                index <= fields.len(),
                continues(old(plan)@, plan@),
                self.ready(plan@, value, Some(accumulated)),
                self.record_right(
                    *fields,
                    fields@.len(),
                    value,
                    row@,
                    made(old(plan)@, accumulator),
                ) == self.record_right(
                    *fields,
                    index as nat,
                    value,
                    row@,
                    made(plan@, accumulated),
                ),
            decreases index,
        {
            index -= 1;
            accumulated = self.emit_field(plan, &fields[index], value, row, Some(accumulated))?;
        }
        Some(accumulated)
    }

    fn emit_record_left(
        self,
        plan: &mut Plan,
        fields: &Vec<RecordFieldRecipe>,
        value: PlanId,
        row: &Vec<RowField>,
        accumulator: PlanId,
    ) -> (folded: Option<PlanId>)
        requires
            self.ready(old(plan)@, value, Some(accumulator)),
        ensures
            emitted(
                old(plan)@,
                final(plan)@,
                self.record_left(
                    *fields,
                    fields@.len(),
                    value,
                    row@,
                    made(old(plan)@, accumulator),
                ),
                folded,
            ),
        decreases *fields, 0nat,
    {
        let mut accumulated = accumulator;
        let mut index: usize = 0;
        while index < fields.len()
            invariant
                index <= fields.len(),
                continues(old(plan)@, plan@),
                self.ready(plan@, value, Some(accumulated)),
                self.record_left(
                    *fields,
                    index as nat,
                    value,
                    row@,
                    made(old(plan)@, accumulator),
                ) == Some(made(plan@, accumulated)),
            decreases fields.len() - index,
        {
            let folded = self.emit_field(plan, &fields[index], value, row, Some(accumulated));
            index += 1;
            if folded.is_none() {
                proof {
                    self.lemma_record_left_fails(
                        *fields,
                        index as nat,
                        fields@.len(),
                        value,
                        row@,
                        made(old(plan)@, accumulator),
                    );
                }
                return None;
            }
            accumulated = folded?;
        }
        Some(accumulated)
    }

    proof fn lemma_record_left_fails(
        self,
        fields: Vec<RecordFieldRecipe>,
        count: nat,
        more: nat,
        value: PlanId,
        row: Seq<RowField>,
        accumulated: Emission,
    )
        requires
            count <= more <= fields@.len(),
            self.record_left(fields, count, value, row, accumulated) is None,
        ensures
            self.record_left(fields, more, value, row, accumulated) is None,
        decreases more,
    {
        if count < more {
            self.lemma_record_left_fails(
                fields,
                count,
                (more - 1) as nat,
                value,
                row,
                accumulated,
            );
        }
    }

    fn emit_record_map(
        self,
        plan: &mut Plan,
        fields: &Vec<RecordFieldRecipe>,
        value: PlanId,
        row: &Vec<RowField>,
    ) -> (folded: Option<PlanId>)
        requires
            self.ready(old(plan)@, value, None),
        ensures
            emitted(
                old(plan)@,
                final(plan)@,
                match self.record_map(*fields, fields@.len(), value, row@, old(plan)@) {
                    Some((after, contributions)) => self.combined(contributions, after),
                    None => None,
                },
                folded,
            ),
        decreases *fields, 0nat,
    {
        let mut contributions: Vec<PlanId> = Vec::new();
        let mut index: usize = 0;
        while index < fields.len()
            invariant
                index <= fields.len(),
                continues(old(plan)@, plan@),
                self.ready(plan@, value, None),
                makes_all(plan@, contributions@, Sort::Expression),
                self.record_map(*fields, index as nat, value, row@, old(plan)@) == Some(
                    (plan@, contributions@),
                ),
            decreases fields.len() - index,
        {
            let folded = self.emit_field(plan, &fields[index], value, row, None);
            index += 1;
            if folded.is_none() {
                proof {
                    self.lemma_record_map_fails(
                        *fields,
                        index as nat,
                        fields@.len(),
                        value,
                        row@,
                        old(plan)@,
                    );
                }
                return None;
            }
            contributions.push(folded?);
        }
        self.combine_contributions(plan, &contributions)
    }

    proof fn lemma_record_map_fails(
        self,
        fields: Vec<RecordFieldRecipe>,
        count: nat,
        more: nat,
        value: PlanId,
        row: Seq<RowField>,
        plan: Seq<Step>,
    )
        requires
            count <= more <= fields@.len(),
            self.record_map(fields, count, value, row, plan) is None,
        ensures
            self.record_map(fields, more, value, row, plan) is None,
        decreases more,
    {
        if count < more {
            self.lemma_record_map_fails(fields, count, (more - 1) as nat, value, row, plan);
        }
    }

    /// Combines contributions in order, associated to the right.
    pub fn combine_contributions(self, plan: &mut Plan, contributions: &Vec<PlanId>) -> (combined:
        Option<PlanId>)
        requires
            in_order(old(plan)@),
            makes_all(old(plan)@, contributions@, Sort::Expression),
        ensures
            emitted(
                old(plan)@,
                final(plan)@,
                self.combined(contributions@, old(plan)@),
                combined,
            ),
    {
        if contributions.len() == 0 {
            return self.emit_mempty(plan);
        }
        let mut index: usize = contributions.len() - 1;
        let mut accumulated = contributions[index];
        while index > 0
            invariant
                index < contributions.len(),
                in_order(plan@),
                continues(old(plan)@, plan@),
                makes(plan@, accumulated, Sort::Expression),
                makes_all(plan@, contributions@, Sort::Expression),
                self.combined(contributions@, old(plan)@) == self.appended(
                    contributions@,
                    index as nat,
                    made(plan@, accumulated),
                ),
            decreases index,
        {
            index -= 1;
            let append = self.known.append?;
            let append = plan.term_reference(append);
            let append = plan.apply(append, contributions[index]);
            let appended = plan.apply(append, accumulated);
            accumulated = plan.subtype(appended, PlanType::plain(self.accumulator_type));
        }
        Some(accumulated)
    }
}

// Constructors

impl FoldEmitter {
    /// The fold of the first fields from the right. Fields without an operation are
    /// left out.
    pub open spec fn fields_right(
        self,
        operations: Seq<Option<TraversalOperation>>,
        count: nat,
        sources: Seq<FieldType>,
        values: Seq<PlanId>,
        accumulated: Emission,
    ) -> Option<Emission>
        decreases count,
    {
        if count == 0 || count > operations.len() {
            Some(accumulated)
        } else {
            let rest = (count - 1) as nat;
            match operations[rest as int] {
                Some(operation) => match self.folded(
                    operation,
                    values[rest as int],
                    Some(accumulated.id),
                    sources[rest as int],
                    accumulated.plan,
                ) {
                    Some(folded) => self.fields_right(operations, rest, sources, values, folded),
                    None => None,
                },
                None => self.fields_right(operations, rest, sources, values, accumulated),
            }
        }
    }

    /// The fold of the first fields from the left. Fields without an operation are
    /// left out.
    pub open spec fn fields_left(
        self,
        operations: Seq<Option<TraversalOperation>>,
        count: nat,
        sources: Seq<FieldType>,
        values: Seq<PlanId>,
        accumulated: Emission,
    ) -> Option<Emission>
        decreases count,
    {
        if count == 0 || count > operations.len() {
            Some(accumulated)
        } else {
            let rest = (count - 1) as nat;
            match self.fields_left(operations, rest, sources, values, accumulated) {
                Some(before) => match operations[rest as int] {
                    Some(operation) => self.folded(
                        operation,
                        values[rest as int],
                        Some(before.id),
                        sources[rest as int],
                        before.plan,
                    ),
                    None => Some(before),
                },
                None => None,
            }
        }
    }

    /// What each of the first fields contributes. Fields without an operation are
    /// left out.
    pub open spec fn fields_map(
        self,
        operations: Seq<Option<TraversalOperation>>,
        count: nat,
        sources: Seq<FieldType>,
        values: Seq<PlanId>,
        plan: Seq<Step>,
    ) -> Option<(Seq<Step>, Seq<PlanId>)>
        decreases count,
    {
        if count == 0 || count > operations.len() {
            Some((plan, Seq::empty()))
        } else {
            let rest = (count - 1) as nat;
            match self.fields_map(operations, rest, sources, values, plan) {
                Some((before, contributions)) => match operations[rest as int] {
                    Some(operation) => match self.folded(
                        operation,
                        values[rest as int],
                        None,
                        sources[rest as int],
                        before,
                    ) {
                        Some(folded) => Some((folded.plan, contributions.push(folded.id))),
                        None => None,
                    },
                    None => Some((before, contributions)),
                },
                None => None,
            }
        }
    }

    /// The fold of a constructor's fields.
    pub open spec fn fields_folded(
        self,
        operations: Seq<Option<TraversalOperation>>,
        sources: Seq<FieldType>,
        values: Seq<PlanId>,
        initial: Option<PlanId>,
        plan: Seq<Step>,
    ) -> Option<Emission> {
        match (self.operation, initial) {
            (FoldOperation::Right, Some(initial)) => self.fields_right(
                operations,
                operations.len(),
                sources,
                values,
                made(plan, initial),
            ),
            (FoldOperation::Left, Some(initial)) => self.fields_left(
                operations,
                operations.len(),
                sources,
                values,
                made(plan, initial),
            ),
            (FoldOperation::MapEach, _) => match self.fields_map(
                operations,
                operations.len(),
                sources,
                values,
                plan,
            ) {
                Some((after, contributions)) => self.combined(contributions, after),
                None => None,
            },
            _ => None,
        }
    }

    proof fn lemma_fields_left_fails(
        self,
        operations: Seq<Option<TraversalOperation>>,
        count: nat,
        more: nat,
        sources: Seq<FieldType>,
        values: Seq<PlanId>,
        accumulated: Emission,
    )
        requires
            count <= more <= operations.len(),
            self.fields_left(operations, count, sources, values, accumulated) is None,
        ensures
            self.fields_left(operations, more, sources, values, accumulated) is None,
        decreases more,
    {
        if count < more {
            self.lemma_fields_left_fails(
                operations,
                count,
                (more - 1) as nat,
                sources,
                values,
                accumulated,
            );
        }
    }

    proof fn lemma_fields_map_fails(
        self,
        operations: Seq<Option<TraversalOperation>>,
        count: nat,
        more: nat,
        sources: Seq<FieldType>,
        values: Seq<PlanId>,
        plan: Seq<Step>,
    )
        requires
            count <= more <= operations.len(),
            self.fields_map(operations, count, sources, values, plan) is None,
        ensures
            self.fields_map(operations, more, sources, values, plan) is None,
        decreases more,
    {
        if count < more {
            self.lemma_fields_map_fails(
                operations,
                count,
                (more - 1) as nat,
                sources,
                values,
                plan,
            );
        }
    }

    fn emit_fields_right(
        self,
        plan: &mut Plan,
        operations: &Vec<Option<TraversalOperation>>,
        sources: &Vec<FieldType>,
        values: &Vec<PlanId>,
        initial: PlanId,
    ) -> (folded: Option<PlanId>)
        requires
            in_order(old(plan)@),
            self.mapping_expressions.made(old(plan)@),
            makes_all(old(plan)@, values@, Sort::Expression),
            makes(old(plan)@, initial, Sort::Expression),
            operations@.len() == sources@.len() == values@.len(),
        ensures
            emitted(
                old(plan)@,
                final(plan)@,
                self.fields_right(
                    operations@,
                    operations@.len(),
                    sources@,
                    values@,
                    made(old(plan)@, initial),
                ),
                folded,
            ),
    {
        let mut accumulated = initial;
        let mut index: usize = operations.len();
        while index > 0
            invariant
                index <= operations.len(),
                operations@.len() == sources@.len() == values@.len(),
                continues(old(plan)@, plan@),
                in_order(plan@),
                self.mapping_expressions.made(plan@),
                makes_all(plan@, values@, Sort::Expression),
                makes(plan@, accumulated, Sort::Expression),
                self.fields_right(
                    operations@,
                    operations@.len(),
                    sources@,
                    values@,
                    made(old(plan)@, initial),
                ) == self.fields_right(
                    operations@,
                    index as nat,
                    sources@,
                    values@,
                    made(plan@, accumulated),
                ),
            decreases index,
        {
            index -= 1;
            if let Some(operation) = &operations[index] {
                accumulated = self.emit_operation(
                    plan,
                    operation,
                    values[index],
                    Some(accumulated),
                    &sources[index],
                )?;
            }
        }
        Some(accumulated)
    }

    fn emit_fields_left(
        self,
        plan: &mut Plan,
        operations: &Vec<Option<TraversalOperation>>,
        sources: &Vec<FieldType>,
        values: &Vec<PlanId>,
        initial: PlanId,
    ) -> (folded: Option<PlanId>)
        requires
            in_order(old(plan)@),
            self.mapping_expressions.made(old(plan)@),
            makes_all(old(plan)@, values@, Sort::Expression),
            makes(old(plan)@, initial, Sort::Expression),
            operations@.len() == sources@.len() == values@.len(),
        ensures
            emitted(
                old(plan)@,
                final(plan)@,
                self.fields_left(
                    operations@,
                    operations@.len(),
                    sources@,
                    values@,
                    made(old(plan)@, initial),
                ),
                folded,
            ),
    {
        let mut accumulated = initial;
        let mut index: usize = 0;
        while index < operations.len()
            invariant
                index <= operations.len(),
                operations@.len() == sources@.len() == values@.len(),
                continues(old(plan)@, plan@),
                in_order(plan@),
                self.mapping_expressions.made(plan@),
                makes_all(plan@, values@, Sort::Expression),
                makes(plan@, accumulated, Sort::Expression),
                self.fields_left(
                    operations@,
                    index as nat,
                    sources@,
                    values@,
                    made(old(plan)@, initial),
                ) == Some(made(plan@, accumulated)),
            decreases operations.len() - index,
        {
            if let Some(operation) = &operations[index] {
                let folded = self.emit_operation(
                    plan,
                    operation,
                    values[index],
                    Some(accumulated),
                    &sources[index],
                );
                if folded.is_none() {
                    proof {
                        self.lemma_fields_left_fails(
                            operations@,
                            index as nat + 1,
                            operations@.len(),
                            sources@,
                            values@,
                            made(old(plan)@, initial),
                        );
                    }
                    return None;
                }
                accumulated = folded?;
            }
            index += 1;
        }
        Some(accumulated)
    }

    fn emit_fields_map(
        self,
        plan: &mut Plan,
        operations: &Vec<Option<TraversalOperation>>,
        sources: &Vec<FieldType>,
        values: &Vec<PlanId>,
    ) -> (folded: Option<PlanId>)
        requires
            in_order(old(plan)@),
            self.mapping_expressions.made(old(plan)@),
            makes_all(old(plan)@, values@, Sort::Expression),
            operations@.len() == sources@.len() == values@.len(),
        ensures
            emitted(
                old(plan)@,
                final(plan)@,
                match self.fields_map(
                    operations@,
                    operations@.len(),
                    sources@,
                    values@,
                    old(plan)@,
                ) {
                    Some((after, contributions)) => self.combined(contributions, after),
                    None => None,
                },
                folded,
            ),
    {
        let mut contributions: Vec<PlanId> = Vec::new();
        let mut index: usize = 0;
        while index < operations.len()
            invariant
                index <= operations.len(),
                operations@.len() == sources@.len() == values@.len(),
                continues(old(plan)@, plan@),
                in_order(plan@),
                self.mapping_expressions.made(plan@),
                makes_all(plan@, values@, Sort::Expression),
                makes_all(plan@, contributions@, Sort::Expression),
                self.fields_map(operations@, index as nat, sources@, values@, old(plan)@) == Some(
                    (plan@, contributions@),
                ),
            decreases operations.len() - index,
        {
            if let Some(operation) = &operations[index] {
                let folded = self.emit_operation(
                    plan,
                    operation,
                    values[index],
                    None,
                    &sources[index],
                );
                if folded.is_none() {
                    proof {
                        self.lemma_fields_map_fails(
                            operations@,
                            index as nat + 1,
                            operations@.len(),
                            sources@,
                            values@,
                            old(plan)@,
                        );
                    }
                    return None;
                }
                contributions.push(folded?);
            }
            index += 1;
        }
        self.combine_contributions(plan, &contributions)
    }
}

/// A member whose fold is derived.
#[derive(Clone, Copy, Debug)]
pub struct DecodedFoldMember {
    pub function_type: TypeId,
    pub mappings: Mappings<TypeId>,
    pub accumulator_type: TypeId,
    pub data_file: FileId,
    pub source_type: TypeId,
    pub result_type: TypeId,
}

/// How many arguments a fold takes: one mapping for each parameter, an accumulator
/// unless the fold maps each value, and the structure.
pub fn fold_argument_count(traversal: TraversalKind, operation: FoldOperation) -> (count: usize)
    ensures
        count == (match traversal {
            TraversalKind::Foldable => 2int,
            TraversalKind::Bifoldable => 3int,
        }) + (if operation is MapEach {
            0int
        } else {
            1int
        }),
{
    match (traversal, operation) {
        (TraversalKind::Foldable, FoldOperation::MapEach) => 2,
        (TraversalKind::Bifoldable, FoldOperation::MapEach) => 3,
        (TraversalKind::Foldable, _) => 3,
        (TraversalKind::Bifoldable, _) => 4,
    }
}

/// The mappings, the accumulator's type and the structure's type of a fold's
/// signature; none where it has another number of arguments.
pub open spec fn fold_signature(
    traversal: TraversalKind,
    operation: FoldOperation,
    arguments: Seq<TypeId>,
    result: TypeId,
) -> Option<(Mappings<TypeId>, TypeId, TypeId)> {
    let mapped = if traversal is Foldable {
        1int
    } else {
        2int
    };
    let accumulators = if operation is MapEach {
        0int
    } else {
        1int
    };
    if arguments.len() == mapped + accumulators + 1 {
        Some(
            (
                if traversal is Foldable {
                    Mappings::Foldable(arguments[0])
                } else {
                    Mappings::Bifoldable { first: arguments[0], second: arguments[1] }
                },
                if operation is MapEach {
                    result
                } else {
                    arguments[mapped]
                },
                arguments.last(),
            ),
        )
    } else {
        None
    }
}

/// Reads a fold's signature. `function_type` is the type from all arguments to the
/// result.
pub fn decode(
    traversal: TraversalKind,
    operation: FoldOperation,
    arguments: &Vec<TypeId>,
    result: TypeId,
    function_type: TypeId,
    data_file: FileId,
) -> (decoded: Option<DecodedFoldMember>)
    ensures
        decoded == (match fold_signature(traversal, operation, arguments@, result) {
            Some((mappings, accumulator_type, source_type)) => Some(
                DecodedFoldMember {
                    function_type,
                    mappings,
                    accumulator_type,
                    data_file,
                    source_type,
                    result_type: result,
                },
            ),
            None => None,
        }),
{
    let count: usize = fold_argument_count(traversal, operation);
    if arguments.len() != count {
        return None;
    }
    let source_type = arguments[count - 1];
    let mappings = match traversal {
        TraversalKind::Foldable => Mappings::Foldable(arguments[0]),
        TraversalKind::Bifoldable => Mappings::Bifoldable {
            first: arguments[0],
            second: arguments[1],
        },
    };
    let accumulator_type = match operation {
        FoldOperation::MapEach => result,
        _ => arguments[count - 2],
    };
    Some(
        DecodedFoldMember {
            function_type,
            mappings,
            accumulator_type,
            data_file,
            source_type,
            result_type: result,
        },
    )
}

/// The alternative of a fold for one constructor; none where the fields do not fit
/// the recipe.
pub open spec fn alternative_folded(
    member: DecodedFoldMember,
    emitter: FoldEmitter,
    constructor: ConstructorRecipe,
    sources: Seq<FieldType>,
    initial: Option<PlanId>,
    plan: Seq<Step>,
) -> Option<Emission> {
    if sources.len() != constructor.fields@.len() {
        None
    } else {
        let bound = field_binders(plan, sources, sources.len());
        let pattern = stepped(
            bound.plan,
            Step::ConstructorPattern {
                name: "constructor"@,
                type_id: member.source_type,
                resolution: (member.data_file, constructor.constructor_id),
                arguments: bound.binders,
            },
        );
        match emitter.fields_folded(
            constructor.fields@,
            sources,
            bound.values,
            initial,
            pattern.plan,
        ) {
            Some(folded) => {
                let body = folded.as_type(plain_type(member.result_type));
                Some(stepped(body.plan, Step::Alternative { pattern: pattern.id, body: body.id }))
            },
            None => None,
        }
    }
}

/// Emits the alternative of a fold for one constructor.
///
/// A right fold nests fields from right to left so the first field remains the
/// outermost application. A left fold threads the accumulator in source order. The
/// fold that maps each value preserves that order in a right-associated tree.
pub fn emit_fold_alternative(
    plan: &mut Plan,
    member: DecodedFoldMember,
    emitter: FoldEmitter,
    constructor: &ConstructorRecipe,
    sources: &Vec<FieldType>,
    initial: Option<PlanId>,
) -> (alternative: Option<PlanId>)
    requires
        in_order(old(plan)@),
        emitter.mapping_expressions.made(old(plan)@),
        optionally_made(initial, old(plan)@),
    ensures
        emitted_as(
            old(plan)@,
            final(plan)@,
            alternative_folded(member, emitter, *constructor, sources@, initial, old(plan)@),
            alternative,
            Sort::Alternative,
        ),
{
    if sources.len() != constructor.fields.len() {
        return None;
    }
    let (binders, values) = bind_fields(plan, sources);
    let pattern = plan.constructor_pattern(
        "constructor",
        member.source_type,
        (member.data_file, constructor.constructor_id),
        binders,
    );
    let folded = match emitter.operation {
        FoldOperation::Right => {
            let initial = initial?;
            emitter.emit_fields_right(plan, &constructor.fields, sources, &values, initial)
        },
        FoldOperation::Left => {
            let initial = initial?;
            emitter.emit_fields_left(plan, &constructor.fields, sources, &values, initial)
        },
        FoldOperation::MapEach => emitter.emit_fields_map(
            plan,
            &constructor.fields,
            sources,
            &values,
        ),
    };
    let folded = folded?;
    let body = plan.subtype(folded, PlanType::plain(member.result_type));
    Some(plan.alternative(pattern, body))
}

/// The alternatives of a fold for the first constructors.
pub open spec fn alternatives_folded(
    member: DecodedFoldMember,
    emitter: FoldEmitter,
    constructors: Seq<ConstructorRecipe>,
    sources: Seq<Vec<FieldType>>,
    count: nat,
    initial: Option<PlanId>,
    plan: Seq<Step>,
) -> Option<(Seq<Step>, Seq<PlanId>)>
    decreases count,
{
    if count == 0 || count > constructors.len() {
        Some((plan, Seq::empty()))
    } else {
        match alternatives_folded(
            member,
            emitter,
            constructors,
            sources,
            (count - 1) as nat,
            initial,
            plan,
        ) {
            Some((before, alternatives)) => match alternative_folded(
                member,
                emitter,
                constructors[count - 1],
                sources[count - 1]@,
                initial,
                before,
            ) {
                Some(alternative) => Some((alternative.plan, alternatives.push(alternative.id))),
                None => None,
            },
            None => None,
        }
    }
}

proof fn lemma_alternatives_folded_fails(
    member: DecodedFoldMember,
    emitter: FoldEmitter,
    constructors: Seq<ConstructorRecipe>,
    sources: Seq<Vec<FieldType>>,
    count: nat,
    more: nat,
    initial: Option<PlanId>,
    plan: Seq<Step>,
)
    requires
        count <= more <= constructors.len(),
        alternatives_folded(member, emitter, constructors, sources, count, initial, plan) is None,
    ensures
        alternatives_folded(member, emitter, constructors, sources, more, initial, plan) is None,
    decreases more,
{
    if count < more {
        lemma_alternatives_folded_fails(
            member,
            emitter,
            constructors,
            sources,
            count,
            (more - 1) as nat,
            initial,
            plan,
        );
    }
}

/// Binders for the mappings of a member, with their variables.
pub struct MappingBinders {
    pub plan: Seq<Step>,
    pub binders: Seq<PlanId>,
    pub expressions: Mappings<PlanId>,
}

/// Binders for the mappings of a member.
pub open spec fn mapping_binders(mappings: Mappings<TypeId>, plan: Seq<Step>) -> MappingBinders {
    match mappings {
        Mappings::Foldable(mapping) => {
            let function = stepped(plan, Step::Binder { name: "function"@, type_id: mapping });
            let expression = stepped(function.plan, Step::Variable { binder: function.id });
            MappingBinders {
                plan: expression.plan,
                binders: seq![function.id],
                expressions: Mappings::Foldable(expression.id),
            }
        },
        Mappings::Bifoldable { first, second } => {
            let first = stepped(plan, Step::Binder { name: "firstFunction"@, type_id: first });
            let second = stepped(
                first.plan,
                Step::Binder { name: "secondFunction"@, type_id: second },
            );
            let left = stepped(second.plan, Step::Variable { binder: first.id });
            let right = stepped(left.plan, Step::Variable { binder: second.id });
            MappingBinders {
                plan: right.plan,
                binders: seq![first.id, second.id],
                expressions: Mappings::Bifoldable { first: left.id, second: right.id },
            }
        },
    }
}

fn bind_mappings(plan: &mut Plan, mappings: Mappings<TypeId>) -> (bound: (
    Vec<PlanId>,
    Mappings<PlanId>,
))
    requires
        in_order(old(plan)@),
    ensures
        in_order(final(plan)@),
        continues(old(plan)@, final(plan)@),
        makes_all(final(plan)@, bound.0@, Sort::Binder),
        bound.1.made(final(plan)@),
        (MappingBinders { plan: final(plan)@, binders: bound.0@, expressions: bound.1 })
            == mapping_binders(mappings, old(plan)@),
{
    let mut binders: Vec<PlanId> = Vec::new();
    match mappings {
        Mappings::Foldable(mapping) => {
            let function = plan.variable_binder("function", mapping);
            let expression = plan.variable(function);
            binders.push(function);
            assert(binders@ =~= seq![function]);
            (binders, Mappings::Foldable(expression))
        },
        Mappings::Bifoldable { first, second } => {
            let first = plan.variable_binder("firstFunction", first);
            let second = plan.variable_binder("secondFunction", second);
            let left = plan.variable(first);
            let right = plan.variable(second);
            binders.push(first);
            binders.push(second);
            assert(binders@ =~= seq![first, second]);
            (binders, Mappings::Bifoldable { first: left, second: right })
        },
    }
}

/// The fold of a type: a function of the mappings, the accumulator where there is
/// one, and the structure, with one alternative for each constructor.
pub open spec fn type_folded(
    member: DecodedFoldMember,
    recipe: Seq<ConstructorRecipe>,
    sources: Seq<Vec<FieldType>>,
    operation: FoldOperation,
    known: KnownTerms,
    plan: Seq<Step>,
) -> Option<Emission> {
    let mapped = mapping_binders(member.mappings, plan);
    let accumulator = stepped(
        mapped.plan,
        Step::Binder { name: "accumulator"@, type_id: member.accumulator_type },
    );
    let initial = stepped(accumulator.plan, Step::Variable { binder: accumulator.id });
    let begun = if operation is MapEach {
        mapped.plan
    } else {
        initial.plan
    };
    let value = stepped(begun, Step::Binder { name: "value"@, type_id: member.source_type });
    let scrutinee = stepped(value.plan, Step::Variable { binder: value.id });
    let emitter = FoldEmitter {
        mapping_expressions: mapped.expressions,
        operation,
        accumulator_type: member.accumulator_type,
        known,
    };
    match alternatives_folded(
        member,
        emitter,
        recipe,
        sources,
        recipe.len(),
        if operation is MapEach {
            None
        } else {
            Some(initial.id)
        },
        scrutinee.plan,
    ) {
        Some((after, alternatives)) => {
            let body = stepped(
                after,
                Step::Case { type_id: member.result_type, scrutinee: scrutinee.id, alternatives },
            );
            Some(
                stepped(
                    body.plan,
                    Step::Lambda {
                        planned: plain_type(member.function_type),
                        binders: if operation is MapEach {
                            mapped.binders.push(value.id)
                        } else {
                            mapped.binders.push(accumulator.id).push(value.id)
                        },
                        body: body.id,
                    },
                ),
            )
        },
        None => None,
    }
}

fn emit_fold_alternatives(
    plan: &mut Plan,
    member: DecodedFoldMember,
    emitter: FoldEmitter,
    recipe: &VarianceRecipe,
    sources: &Vec<Vec<FieldType>>,
    initial: Option<PlanId>,
) -> (alternatives: Option<Vec<PlanId>>)
    requires
        in_order(old(plan)@),
        sources@.len() == recipe.constructors@.len(),
        emitter.mapping_expressions.made(old(plan)@),
        optionally_made(initial, old(plan)@),
    ensures
        ({
            let expected = alternatives_folded(
                member,
                emitter,
                recipe.constructors@,
                sources@,
                recipe.constructors@.len(),
                initial,
                old(plan)@,
            );
            match alternatives {
                Some(alternatives) => {
                    &&& expected == Some((final(plan)@, alternatives@))
                    &&& in_order(final(plan)@)
                    &&& continues(old(plan)@, final(plan)@)
                    &&& makes_all(final(plan)@, alternatives@, Sort::Alternative)
                },
                None => expected is None,
            }
        }),
{
    let mut alternatives: Vec<PlanId> = Vec::new();
    let mut index: usize = 0;
    while index < recipe.constructors.len()
        invariant
            index <= recipe.constructors.len(),
            sources@.len() == recipe.constructors@.len(),
            continues(old(plan)@, plan@),
            in_order(plan@),
            emitter.mapping_expressions.made(old(plan)@),
            optionally_made(initial, old(plan)@),
            makes_all(plan@, alternatives@, Sort::Alternative),
            alternatives_folded(
                member,
                emitter,
                recipe.constructors@,
                sources@,
                index as nat,
                initial,
                old(plan)@,
            ) == Some((plan@, alternatives@)),
        decreases recipe.constructors.len() - index,
    {
        let alternative = emit_fold_alternative(
            plan,
            member,
            emitter,
            &recipe.constructors[index],
            &sources[index],
            initial,
        );
        index += 1;
        if alternative.is_none() {
            proof {
                lemma_alternatives_folded_fails(
                    member,
                    emitter,
                    recipe.constructors@,
                    sources@,
                    index as nat,
                    recipe.constructors@.len(),
                    initial,
                    old(plan)@,
                );
            }
            return None;
        }
        alternatives.push(alternative?);
    }
    Some(alternatives)
}

/// Emits the fold of a type. `sources` are the types of each constructor's fields.
pub fn emit_variance_fold(
    plan: &mut Plan,
    member: DecodedFoldMember,
    recipe: &VarianceRecipe,
    sources: &Vec<Vec<FieldType>>,
    operation: FoldOperation,
    known: KnownTerms,
) -> (fold: Option<PlanId>)
    requires
        in_order(old(plan)@),
        sources@.len() == recipe.constructors@.len(),
    ensures
        emitted(
            old(plan)@,
            final(plan)@,
            type_folded(
                member,
                recipe.constructors@,
                sources@,
                operation,
                known,
                old(plan)@,
            ),
            fold,
        ),
{
    let (mut binders, mapping_expressions) = bind_mappings(plan, member.mappings);
    let initial = match operation {
        FoldOperation::MapEach => None,
        _ => {
            let accumulator = plan.variable_binder("accumulator", member.accumulator_type);
            binders.push(accumulator);
            Some(plan.variable(accumulator))
        },
    };
    let value = plan.variable_binder("value", member.source_type);
    let scrutinee = plan.variable(value);
    binders.push(value);
    let emitter = FoldEmitter {
        mapping_expressions,
        operation,
        accumulator_type: member.accumulator_type,
        known,
    };
    let alternatives = emit_fold_alternatives(plan, member, emitter, recipe, sources, initial)?;
    let body = plan.case(member.result_type, scrutinee, alternatives);
    Some(plan.lambda(PlanType::plain(member.function_type), binders, body))
}

// Members

/// The members of the class: both directional folds and the one that maps.
pub open spec fn fold_terms(traversal: TraversalKind, known: KnownTerms) -> (
    Option<(FileId, TermItemId)>,
    Option<(FileId, TermItemId)>,
    Option<(FileId, TermItemId)>,
) {
    match traversal {
        TraversalKind::Foldable => (known.foldr, known.foldl, known.fold_map),
        TraversalKind::Bifoldable => (known.bifoldr, known.bifoldl, known.bifold_map),
    }
}

/// The operation of a member, by its identity.
pub open spec fn member_operation(
    traversal: TraversalKind,
    known: KnownTerms,
    member: (FileId, TermItemId),
) -> Option<FoldOperation> {
    let (foldr, foldl, fold_map) = fold_terms(traversal, known);
    if foldr == Some(member) {
        Some(FoldOperation::Right)
    } else if foldl == Some(member) {
        Some(FoldOperation::Left)
    } else if fold_map == Some(member) {
        Some(FoldOperation::MapEach)
    } else {
        None
    }
}

/// The operations are those of the members, and all three are among them.
pub open spec fn covers_members(
    traversal: TraversalKind,
    known: KnownTerms,
    class_file: FileId,
    members: Seq<TermItemId>,
    operations: Seq<FoldOperation>,
) -> bool {
    &&& operations.len() == members.len()
    &&& forall|i: int|
        0 <= i < members.len() ==> member_operation(
            traversal,
            known,
            (class_file, #[trigger] members[i]),
        ) == Some(operations[i])
    &&& operations.contains(FoldOperation::Right)
    &&& operations.contains(FoldOperation::Left)
    &&& operations.contains(FoldOperation::MapEach)
}

/// Whether a term is the one that is known.
pub(super) fn is_term(known: (FileId, TermItemId), term: (FileId, TermItemId)) -> (same: bool)
    ensures
        same == (known == term),
{
    known.0 == term.0 && known.1 == term.1
}

/// The operation for each member of the class, in the order of the class; none
/// where a term is not known, or where the class has other members or lacks one.
pub fn generate_fold_members(
    traversal: TraversalKind,
    known: KnownTerms,
    class_file: FileId,
    members: &Vec<TermItemId>,
) -> (operations: Option<Vec<FoldOperation>>)
    ensures
        match operations {
            Some(operations) => covers_members(
                traversal,
                known,
                class_file,
                members@,
                operations@,
            ),
            None => {
                let (foldr, foldl, fold_map) = fold_terms(traversal, known);
                ||| foldr is None || foldl is None || fold_map is None
                ||| forall|operations: Seq<FoldOperation>|
                    !covers_members(traversal, known, class_file, members@, operations)
            },
        },
{
    let (foldr, foldl, fold_map) = match traversal {
        TraversalKind::Foldable => (known.foldr, known.foldl, known.fold_map),
        TraversalKind::Bifoldable => (known.bifoldr, known.bifoldl, known.bifold_map),
    };
    let foldr = foldr?;
    let foldl = foldl?;
    let fold_map = fold_map?;
    let mut foldr_generated = false;
    let mut foldl_generated = false;
    let mut fold_map_generated = false;
    let mut operations: Vec<FoldOperation> = Vec::new();
    let mut index: usize = 0;
    while index < members.len()
        invariant
            index <= members.len(),
            operations@.len() == index,
            fold_terms(traversal, known) == (Some(foldr), Some(foldl), Some(fold_map)),
            forall|i: int|
                0 <= i < index ==> member_operation(
                    traversal,
                    known,
                    (class_file, #[trigger] members@[i]),
                ) == Some(operations@[i]),
            foldr_generated == operations@.contains(FoldOperation::Right),
            foldl_generated == operations@.contains(FoldOperation::Left),
            fold_map_generated == operations@.contains(FoldOperation::MapEach),
        decreases members.len() - index,
    {
        let resolution = (class_file, members[index]);
        let ghost before = operations@;
        let operation = if is_term(foldr, resolution) {
            foldr_generated = true;
            FoldOperation::Right
        } else if is_term(foldl, resolution) {
            foldl_generated = true;
            FoldOperation::Left
        } else if is_term(fold_map, resolution) {
            fold_map_generated = true;
            FoldOperation::MapEach
        } else {
            assert(member_operation(traversal, known, (class_file, members@[index as int]))
                is None);
            return None;
        };
        operations.push(operation);
        proof {
            lemma_push_contains(before, operation);
        }
        index += 1;
    }
    if !foldr_generated || !foldl_generated || !fold_map_generated {
        assert forall|others: Seq<FoldOperation>| !covers_members(
            traversal,
            known,
            class_file,
            members@,
            others,
        ) by {
            if covers_members(traversal, known, class_file, members@, others) {
                assert forall|i: int| 0 <= i < others.len() implies others[i]
                    == operations@[i] by {
                    assert(member_operation(traversal, known, (class_file, members@[i])) == Some(
                        others[i],
                    ));
                }
                assert(others =~= operations@);
            }
        }
        return None;
    }
    Some(operations)
}

proof fn lemma_push_contains(operations: Seq<FoldOperation>, operation: FoldOperation)
    ensures
        forall|other: FoldOperation| #[trigger]
            operations.push(operation).contains(other) <==> operations.contains(other) || other
                == operation,
{
    assert forall|other: FoldOperation| #[trigger]
        operations.push(operation).contains(other) <==> operations.contains(other) || other
            == operation by {
        let pushed = operations.push(operation);
        if operations.contains(other) {
            let i = operations.index_of(other);
            assert(pushed[i] == other);
        }
        if other == operation {
            assert(pushed[operations.len() as int] == other);
        }
        if pushed.contains(other) {
            let i = pushed.index_of(other);
            if i < operations.len() {
                assert(operations[i] == other);
            }
        }
    }
}

} // verus!
