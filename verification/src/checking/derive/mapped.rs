//! What derived maps do to values.

use super::super::types::FileId;
use super::contravariant::Mappings;
use super::plan::{KnownTerms, PlanId};
use super::shapes::{access_of, apply, bounds, construct, function_of, updated_of, Shape};
use super::variance::{
    BinaryApplicationArguments, ConstructorRecipe, RecordFieldRecipe, TraversalOperation,
    Variance,
};
use crate::indexing::items::TermItemId;
use vstd::prelude::*;

verus! {

/// The variable of a binder.
pub open spec fn variable_of(binder: PlanId) -> Shape {
    Shape::Bound { binder }
}

/// A function of one variable.
pub open spec fn lambda_of(binder: PlanId, body: Shape) -> Shape {
    function_of(seq![variable_of(binder)], body)
}

/// The term that maps over a container: `map`, or `cmap` where the container consumes
/// its elements.
pub open spec fn unary_term(known: KnownTerms, variance: Variance) -> Option<(FileId, TermItemId)> {
    match variance {
        Variance::Covariant => known.map,
        Variance::Contravariant => known.cmap,
    }
}

/// The term that maps over a container of two types: `bimap`, or `dimap` where the
/// container consumes what the first stands for.
pub open spec fn binary_term(known: KnownTerms, variance: Variance) -> Option<
    (FileId, TermItemId),
> {
    match variance {
        Variance::Covariant => known.bimap,
        Variance::Contravariant => known.dimap,
    }
}

/// A term that is known.
pub open spec fn term_of(term: Option<(FileId, TermItemId)>) -> Shape {
    Shape::Term { resolution: term->0 }
}

/// What maps are made of: the functions that they are given, and known terms.
pub struct Maps {
    pub mappings: Mappings<Shape>,
    pub known: KnownTerms,
}

impl Maps {
    /// The result is the value with everything mapped that the operation reaches. What a
    /// parameter stands for is what its own function gives for the value. A function is
    /// mapped by mapping what it is given and what it gives; a container by mapping its
    /// elements, with `map`, or `cmap` where it consumes them; a container of two types
    /// with `bimap` or `dimap`; a record by updating its fields.
    pub open spec fn maps(self, operation: TraversalOperation, value: Shape, result: Shape) -> bool
        decreases operation, 0nat,
    {
        match operation {
            TraversalOperation::Parameter { parameter } => {
                self.mappings.of(parameter) matches Some(function) && result == apply(
                    function,
                    value,
                )
            },
            TraversalOperation::Function { argument, result: output } => exists|
                binder: PlanId,
                input: Shape,
                body: Shape,
            |
                {
                    &&& self.maps_optionally(argument, variable_of(binder), input)
                    &&& self.maps_optionally(output, #[trigger] apply(value, input), body)
                    &&& result == #[trigger] lambda_of(binder, body)
                },
            TraversalOperation::UnaryApplication { argument_variance, argument } => exists|
                function: Shape,
            |
                {
                    &&& self.transforms(*argument, function)
                    &&& unary_term(self.known, argument_variance) is Some
                    &&& result == apply(
                        #[trigger] apply(
                            term_of(unary_term(self.known, argument_variance)),
                            function,
                        ),
                        value,
                    )
                },
            TraversalOperation::BinaryApplication { first_variance, arguments } => exists|
                first: Shape,
                second: Shape,
            |
                {
                    &&& self.transforms_first(arguments, first)
                    &&& self.transforms_second(arguments, second)
                    &&& binary_term(self.known, first_variance) is Some
                    &&& result == apply(
                        #[trigger] apply(
                            apply(term_of(binary_term(self.known, first_variance)), first),
                            second,
                        ),
                        value,
                    )
                },
            TraversalOperation::Record { fields } => exists|labels: Seq<String>, values: Seq<Shape>|
                {
                    &&& result == #[trigger] updated_of(value, labels, values)
                    &&& labels.len() == fields@.len()
                    &&& values.len() == fields@.len()
                    &&& self.updates(fields, fields@.len(), value, labels, values)
                },
        }
    }

    /// The value is mapped, or stays what it is where nothing is to be done.
    pub open spec fn maps_optionally(
        self,
        operation: Option<Box<TraversalOperation>>,
        value: Shape,
        result: Shape,
    ) -> bool
        decreases operation, 0nat,
    {
        match operation {
            Some(operation) => self.maps(*operation, value, result),
            None => result == value,
        }
    }

    /// The function maps what it is given.
    pub open spec fn transforms(self, operation: TraversalOperation, function: Shape) -> bool
        decreases operation, 1nat,
    {
        exists|binder: PlanId, body: Shape|
            function == #[trigger] lambda_of(binder, body) && self.maps(
                operation,
                variable_of(binder),
                body,
            )
    }

    /// The function maps what stands for the first of two types.
    pub open spec fn transforms_first(
        self,
        arguments: BinaryApplicationArguments,
        function: Shape,
    ) -> bool
        decreases arguments, 0nat,
    {
        match arguments {
            BinaryApplicationArguments::First(first) => self.transforms(*first, function),
            BinaryApplicationArguments::Second(_) => is_identity(function),
            BinaryApplicationArguments::Both { first, .. } => self.transforms(*first, function),
        }
    }

    /// The function maps what stands for the second of two types.
    pub open spec fn transforms_second(
        self,
        arguments: BinaryApplicationArguments,
        function: Shape,
    ) -> bool
        decreases arguments, 0nat,
    {
        match arguments {
            BinaryApplicationArguments::First(_) => is_identity(function),
            BinaryApplicationArguments::Second(second) => self.transforms(*second, function),
            BinaryApplicationArguments::Both { second, .. } => self.transforms(*second, function),
        }
    }

    /// The first fields are updated under their own labels with what they hold, mapped.
    pub open spec fn updates(
        self,
        fields: Vec<RecordFieldRecipe>,
        count: nat,
        value: Shape,
        labels: Seq<String>,
        values: Seq<Shape>,
    ) -> bool
        decreases fields, count,
    {
        if count == 0 || count > fields@.len() {
            true
        } else {
            &&& self.updates(fields, (count - 1) as nat, value, labels, values)
            &&& labels[count - 1] == fields@[count - 1].label
            &&& self.maps_field(fields@[count - 1], value, values[count - 1])
        }
    }

    /// The field of the value, mapped.
    pub open spec fn maps_field(self, field: RecordFieldRecipe, value: Shape, result: Shape) -> bool
        decreases field, 0nat,
    {
        self.maps(field.operation, access_of(value, field.label), result)
    }

    /// A function that maps what it is given and what it gives is a function, mapped.
    pub proof fn lemma_function(
        self,
        argument: Option<Box<TraversalOperation>>,
        output: Option<Box<TraversalOperation>>,
        value: Shape,
        binder: PlanId,
        input: Shape,
        body: Shape,
    )
        requires
            self.maps_optionally(argument, variable_of(binder), input),
            self.maps_optionally(output, apply(value, input), body),
        ensures
            self.maps(
                TraversalOperation::Function { argument, result: output },
                value,
                lambda_of(binder, body),
            ),
    {
    }

    /// Updates of other fields change nothing.
    pub proof fn lemma_updates_push(
        self,
        fields: Vec<RecordFieldRecipe>,
        count: nat,
        value: Shape,
        labels: Seq<String>,
        values: Seq<Shape>,
        label: String,
        result: Shape,
    )
        requires
            count <= fields@.len(),
            labels.len() == count,
            values.len() == count,
            self.updates(fields, count, value, labels, values),
        ensures
            self.updates(fields, count, value, labels.push(label), values.push(result)),
        decreases count,
    {
        self.lemma_updates_prefix(
            fields,
            count,
            value,
            labels,
            values,
            labels.push(label),
            values.push(result),
        );
    }

    proof fn lemma_updates_prefix(
        self,
        fields: Vec<RecordFieldRecipe>,
        count: nat,
        value: Shape,
        labels: Seq<String>,
        values: Seq<Shape>,
        more_labels: Seq<String>,
        more_values: Seq<Shape>,
    )
        requires
            count <= fields@.len(),
            forall|i: int| 0 <= i < count ==> #[trigger] labels[i] == more_labels[i],
            forall|i: int| 0 <= i < count ==> #[trigger] values[i] == more_values[i],
            self.updates(fields, count, value, labels, values),
        ensures
            self.updates(fields, count, value, more_labels, more_values),
        decreases count,
    {
        if count > 0 {
            self.lemma_updates_prefix(
                fields,
                (count - 1) as nat,
                value,
                labels,
                values,
                more_labels,
                more_values,
            );
            assert(labels[count - 1] == more_labels[count - 1]);
            assert(values[count - 1] == more_values[count - 1]);
        }
    }
}

impl Maps {
    /// The field is mapped, or stays what it is.
    pub open spec fn maps_one(
        self,
        operation: Option<TraversalOperation>,
        binder: PlanId,
        result: Shape,
    ) -> bool {
        match operation {
            Some(operation) => self.maps(operation, variable_of(binder), result),
            None => result == variable_of(binder),
        }
    }

    /// The first fields are mapped, each by its own operation.
    pub open spec fn maps_all(
        self,
        operations: Seq<Option<TraversalOperation>>,
        binders: Seq<PlanId>,
        results: Seq<Shape>,
    ) -> bool {
        &&& results.len() == binders.len()
        &&& binders.len() <= operations.len()
        &&& binders.no_duplicates()
        &&& forall|i: int|
            0 <= i < binders.len() ==> #[trigger] self.maps_one(
                operations[i],
                binders[i],
                results[i],
            )
    }

    /// The pattern matches a constructor, and the body is the same constructor with its
    /// fields mapped.
    pub open spec fn rebuilds(
        self,
        resolution: (FileId, TermItemId),
        operations: Seq<Option<TraversalOperation>>,
        pattern: Shape,
        body: Shape,
    ) -> bool {
        exists|binders: Seq<PlanId>, results: Seq<Shape>|
            {
                &&& #[trigger] self.maps_all(operations, binders, results)
                &&& binders.len() == operations.len()
                &&& pattern == construct(resolution, bounds(binders))
                &&& body == construct(resolution, results)
            }
    }

    /// There is an alternative for each of the first constructors, in order, and each
    /// rebuilds its own.
    pub open spec fn rebuilds_all(
        self,
        file: FileId,
        constructors: Seq<ConstructorRecipe>,
        patterns: Seq<Shape>,
        bodies: Seq<Shape>,
    ) -> bool {
        &&& patterns.len() == bodies.len()
        &&& patterns.len() <= constructors.len()
        &&& forall|i: int|
            0 <= i < patterns.len() ==> #[trigger] self.rebuilds(
                (file, constructors[i].constructor_id),
                constructors[i].fields@,
                patterns[i],
                bodies[i],
            )
    }

    /// One more field.
    pub proof fn lemma_maps_push(
        self,
        operations: Seq<Option<TraversalOperation>>,
        binders: Seq<PlanId>,
        results: Seq<Shape>,
        binder: PlanId,
        result: Shape,
    )
        requires
            self.maps_all(operations, binders, results),
            binders.len() < operations.len(),
            !binders.contains(binder),
            self.maps_one(operations[binders.len() as int], binder, result),
        ensures
            self.maps_all(operations, binders.push(binder), results.push(result)),
    {
        let all = binders.push(binder);
        let more = results.push(result);
        assert forall|i: int| 0 <= i < all.len() implies #[trigger] self.maps_one(
            operations[i],
            all[i],
            more[i],
        ) by {
            if i < binders.len() {
                assert(self.maps_one(operations[i], binders[i], results[i]));
            }
        }
        assert forall|i: int, j: int|
            0 <= i < all.len() && 0 <= j < all.len() && i != j implies all[i] != all[j] by {
            if i < binders.len() && j == binders.len() {
                assert(binders.contains(binders[i]));
            }
            if j < binders.len() && i == binders.len() {
                assert(binders.contains(binders[j]));
            }
        }
    }

    /// One more alternative.
    pub proof fn lemma_rebuilds_push(
        self,
        file: FileId,
        constructors: Seq<ConstructorRecipe>,
        patterns: Seq<Shape>,
        bodies: Seq<Shape>,
        pattern: Shape,
        body: Shape,
    )
        requires
            self.rebuilds_all(file, constructors, patterns, bodies),
            patterns.len() < constructors.len(),
            self.rebuilds(
                (file, constructors[patterns.len() as int].constructor_id),
                constructors[patterns.len() as int].fields@,
                pattern,
                body,
            ),
        ensures
            self.rebuilds_all(file, constructors, patterns.push(pattern), bodies.push(body)),
    {
        let more = patterns.push(pattern);
        let other = bodies.push(body);
        assert forall|i: int| 0 <= i < more.len() implies #[trigger] self.rebuilds(
            (file, constructors[i].constructor_id),
            constructors[i].fields@,
            more[i],
            other[i],
        ) by {
            if i < patterns.len() {
                assert(self.rebuilds(
                    (file, constructors[i].constructor_id),
                    constructors[i].fields@,
                    patterns[i],
                    bodies[i],
                ));
            }
        }
    }
}

/// The function gives what it is given.
pub open spec fn is_identity(function: Shape) -> bool {
    exists|binder: PlanId| function == #[trigger] lambda_of(binder, variable_of(binder))
}

} // verus!
