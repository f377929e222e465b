//! Recipes for whole types, and what holds of every recipe.

use super::super::types::{Name, TypeId};
use super::checker::{
    argument_reported, argument_valid, fixed, function_rejected, mentions_any, unary_emitted,
    unary_required, Checker, KnownClasses, VarianceFieldChecker,
};
use super::field::{fields_mention, FieldType, RowField};
use super::variance::{
    optional_model, select_rigids, selected_rigids, ClassReference, ConstructorRecipe,
    DerivedParameter, DerivedRigids, Findings, InstanceHead, Operation, TraversalOperation,
    Variance, VarianceConfig, VarianceFindings, VarianceRecipe,
};
use crate::indexing::items::TermItemId;
use vstd::prelude::*;

verus! {

/// A constructor of the type that an instance is derived for.
#[derive(Debug)]
pub struct ConstructorFields {
    pub constructor_id: TermItemId,
    /// The new type variables of the constructor's type, which the derived type
    /// gives no argument for.
    pub names: Vec<Name>,
    pub fields: Vec<FieldType>,
}

/// What an instance is derived from.
#[derive(Debug)]
pub struct DerivedData {
    pub derived_type: TypeId,
    pub config: VarianceConfig,
    pub record: TypeId,
    pub known: KnownClasses,
    pub heads: Vec<InstanceHead>,
    pub constructors: Vec<ConstructorFields>,
}

/// The operations on the first fields, and what is found on the way.
pub open spec fn fields_checked(
    checker: Checker,
    fields: Seq<FieldType>,
    findings: Findings,
) -> (Findings, Seq<Option<Operation>>)
    decreases fields.len(),
{
    if fields.len() == 0 {
        (findings, Seq::empty())
    } else {
        let (before, operations) = fields_checked(checker, fields.drop_last(), findings);
        let checked = checker.checked(fields.last(), Variance::Covariant, before);
        (checked.findings, operations.push(checked.operation))
    }
}

/// What the fields of a constructor are checked against.
pub open spec fn constructor_checker(data: DerivedData, constructor: ConstructorFields) -> Checker {
    Checker {
        rigids: selected_rigids(data.config, constructor.names@),
        record: data.record,
        known: data.known,
        heads: data.heads@,
    }
}

/// The operations on the fields of a constructor. A constructor that lacks a
/// parameter is rejected.
pub open spec fn constructor_checked(
    data: DerivedData,
    constructor: ConstructorFields,
    findings: Findings,
) -> (Findings, Seq<Option<Operation>>) {
    let checker = constructor_checker(data, constructor);
    fields_checked(
        checker,
        constructor.fields@,
        if checker.rigids is Invalid {
            findings.rejected(data.derived_type)
        } else {
            findings
        },
    )
}

/// The operations on the fields of the first constructors.
pub open spec fn constructors_checked(
    data: DerivedData,
    constructors: Seq<ConstructorFields>,
    findings: Findings,
) -> (Findings, Seq<(TermItemId, Seq<Option<Operation>>)>)
    decreases constructors.len(),
{
    if constructors.len() == 0 {
        (findings, Seq::empty())
    } else {
        let (before, recipes) = constructors_checked(data, constructors.drop_last(), findings);
        let (after, fields) = constructor_checked(data, constructors.last(), before);
        (after, recipes.push((constructors.last().constructor_id, fields)))
    }
}

/// The models of the operations on a constructor's fields.
pub open spec fn field_models(fields: Seq<Option<TraversalOperation>>) -> Seq<Option<Operation>> {
    Seq::new(fields.len(), |i: int| optional_model(fields[i]))
}

/// The model of a recipe.
pub open spec fn recipe_model(constructors: Seq<ConstructorRecipe>) -> Seq<
    (TermItemId, Seq<Option<Operation>>),
> {
    Seq::new(
        constructors.len(),
        |i: int| (constructors[i].constructor_id, field_models(constructors[i].fields@)),
    )
}

/// The operations on the fields of a constructor.
pub fn check_constructor(
    data: &DerivedData,
    constructor: &ConstructorFields,
    findings: &mut VarianceFindings,
) -> (recipe: ConstructorRecipe)
    ensures
        recipe.constructor_id == constructor.constructor_id,
        (final(findings)@, field_models(recipe.fields@)) == constructor_checked(
            *data,
            *constructor,
            old(findings)@,
        ),
{
    let rigids = select_rigids(data.config, &constructor.names);
    if let DerivedRigids::Invalid = rigids {
        findings.reject(data.derived_type);
    }
    let ghost begun = findings@;
    let checker = VarianceFieldChecker {
        rigids,
        record: data.record,
        known: data.known,
        heads: &data.heads,
    };
    let mut operations: Vec<Option<TraversalOperation>> = Vec::new();
    let mut index: usize = 0;
    assert(constructor.fields@.take(0) =~= Seq::empty());
    assert(field_models(operations@) =~= Seq::empty());
    while index < constructor.fields.len()
        invariant
            index <= constructor.fields.len(),
            (findings@, field_models(operations@)) == fields_checked(
                checker.model(),
                constructor.fields@.take(index as int),
                begun,
            ),
        decreases constructor.fields.len() - index,
    {
        assert(constructor.fields@.take(index + 1).drop_last() =~= constructor.fields@.take(
            index as int,
        ));
        let ghost before = field_models(operations@);
        let operation = checker.check(
            &constructor.fields[index],
            Variance::Covariant,
            findings,
        );
        operations.push(operation);
        assert(field_models(operations@) =~= before.push(optional_model(operation)));
        index += 1;
    }
    assert(constructor.fields@.take(index as int) =~= constructor.fields@);
    ConstructorRecipe { constructor_id: constructor.constructor_id, fields: operations }
}

/// The recipe for a type, with what was found: issues that have to be reported and
/// constraints that the instance has.
pub fn generate_variance_constraints(data: &DerivedData) -> (generated: (
    VarianceRecipe,
    VarianceFindings,
))
    ensures
        (generated.1@, recipe_model(generated.0.constructors@)) == constructors_checked(
            *data,
            data.constructors@,
            Findings { valid: true, issues: Seq::empty(), constraints: Seq::empty() },
        ),
        generated.0.valid == generated.1@.valid,
{
    let mut findings = VarianceFindings::new();
    let ghost begun = findings@;
    let mut constructors: Vec<ConstructorRecipe> = Vec::new();
    let mut index: usize = 0;
    assert(data.constructors@.take(0) =~= Seq::empty());
    assert(recipe_model(constructors@) =~= Seq::empty());
    while index < data.constructors.len()
        invariant
            index <= data.constructors.len(),
            (findings@, recipe_model(constructors@)) == constructors_checked(
                *data,
                data.constructors@.take(index as int),
                begun,
            ),
        decreases data.constructors.len() - index,
    {
        assert(data.constructors@.take(index + 1).drop_last() =~= data.constructors@.take(
            index as int,
        ));
        let ghost before = recipe_model(constructors@);
        let recipe = check_constructor(data, &data.constructors[index], &mut findings);
        let ghost model = (recipe.constructor_id, field_models(recipe.fields@));
        constructors.push(recipe);
        assert(recipe_model(constructors@) =~= before.push(model));
        index += 1;
    }
    assert(data.constructors@.take(index as int) =~= data.constructors@);
    let valid = findings.valid;
    (VarianceRecipe { constructors, valid }, findings)
}

// Laws

/// The later findings are valid exactly if the earlier ones are and nothing was
/// reported in between. What was reported stays.
pub open spec fn honest(before: Findings, after: Findings) -> bool {
    &&& before.issues.is_prefix_of(after.issues)
    &&& after.valid <==> before.valid && after.issues.len() == before.issues.len()
}

proof fn lemma_honest_transitive(first: Findings, second: Findings, third: Findings)
    requires
        honest(first, second),
        honest(second, third),
    ensures
        honest(first, third),
{
    assert forall|i: int| 0 <= i < first.issues.len() implies first.issues[i]
        == third.issues[i] by {
        assert(first.issues[i] == second.issues[i]);
    }
}

proof fn lemma_unary_required_honest(
    parameters: Seq<DerivedParameter>,
    type_id: TypeId,
    function: TypeId,
    argument: FieldType,
    variance: Variance,
    findings: Findings,
)
    ensures
        honest(
            findings,
            unary_required(parameters, type_id, function, argument, variance, findings),
        ),
    decreases parameters.len(),
{
    if parameters.len() > 0 {
        lemma_unary_required_honest(
            parameters.drop_last(),
            type_id,
            function,
            argument,
            variance,
            findings,
        );
    }
}

proof fn lemma_unary_emitted_honest(
    parameters: Seq<DerivedParameter>,
    function: TypeId,
    argument: FieldType,
    variance: Variance,
    findings: Findings,
)
    ensures
        honest(findings, unary_emitted(parameters, function, argument, variance, findings)),
    decreases parameters.len(),
{
    if parameters.len() > 0 {
        lemma_unary_emitted_honest(
            parameters.drop_last(),
            function,
            argument,
            variance,
            findings,
        );
    }
}

proof fn lemma_argument_reported(
    parameters: Seq<DerivedParameter>,
    type_id: TypeId,
    argument: FieldType,
    variance: Variance,
    findings: Findings,
)
    ensures
        ({
            let after = argument_reported(parameters, type_id, argument, variance, findings);
            &&& findings.issues.is_prefix_of(after.issues)
            &&& after.valid == findings.valid
            &&& argument_valid(parameters, argument, variance) <==> after.issues.len()
                == findings.issues.len()
        }),
    decreases parameters.len(),
{
    if parameters.len() > 0 {
        let rest = parameters.drop_last();
        lemma_argument_reported(rest, type_id, argument, variance, findings);
        let before = argument_reported(rest, type_id, argument, variance, findings);
        if argument_valid(parameters, argument, variance) {
            assert forall|i: int|
                0 <= i < rest.len() && argument.mentions(
                    (#[trigger] rest[i]).name,
                ) implies variance == rest[i].expected by {
                assert(rest[i] == parameters[i]);
            }
            assert(parameters[parameters.len() - 1] == parameters.last());
        } else if argument_valid(rest, argument, variance) {
            let i = choose|i: int|
                0 <= i < parameters.len() && argument.mentions((#[trigger] parameters[i]).name)
                    && variance != parameters[i].expected;
            if i < rest.len() {
                assert(argument.mentions(rest[i].name));
            }
        }
    }
}

/// Nothing that is wrong with a field goes unreported, and nothing is reported of a
/// field that can be derived through: the findings stay valid exactly as long as no
/// issue is found.
pub proof fn lemma_check_honest(
    checker: Checker,
    field: FieldType,
    variance: Variance,
    findings: Findings,
)
    ensures
        honest(findings, checker.checked(field, variance, findings).findings),
    decreases field, 9nat,
{
    match field {
        FieldType::Function { argument, result, .. } => {
            if !function_rejected(checker.rigids.parameters(), field) {
                let first = checker.checked(*argument, variance.flipped(), findings);
                lemma_check_honest(checker, *argument, variance.flipped(), findings);
                lemma_check_honest(checker, *result, variance, first.findings);
                lemma_honest_transitive(
                    findings,
                    first.findings,
                    checker.checked(*result, variance, first.findings).findings,
                );
            }
        },
        FieldType::Application { function, argument, .. } => {
            if function.identity() == checker.record {
                lemma_check_honest(checker, *argument, variance, findings);
            } else if checker.rigids.mixed() {
                lemma_mixed_honest(checker, field, variance, findings);
            } else if let Some(class) = checker.rigids.binary() {
                lemma_binary_honest(checker, field, variance, class, findings);
            } else {
                lemma_unary_honest(checker, field, variance, findings);
            }
        },
        FieldType::KindApplication { argument, .. } => {
            lemma_check_honest(checker, *argument, variance, findings);
        },
        FieldType::Row { fields, tail, .. } => {
            lemma_row_honest(checker, fields, fields@.len(), variance, findings);
            if let Some(tail) = tail {
                let found = checker.row(fields, fields@.len(), variance, findings).0;
                lemma_check_honest(checker, *tail, variance, found);
                lemma_honest_transitive(
                    findings,
                    found,
                    checker.checked(*tail, variance, found).findings,
                );
            }
        },
        _ => {},
    }
}

proof fn lemma_row_honest(
    checker: Checker,
    fields: Vec<RowField>,
    count: nat,
    variance: Variance,
    findings: Findings,
)
    ensures
        honest(findings, checker.row(fields, count, variance, findings).0),
    decreases fields, count,
{
    if 0 < count <= fields@.len() {
        let before = checker.row(fields, (count - 1) as nat, variance, findings).0;
        lemma_row_honest(checker, fields, (count - 1) as nat, variance, findings);
        lemma_check_honest(checker, fields@[count - 1].field, variance, before);
        lemma_honest_transitive(
            findings,
            before,
            checker.checked(fields@[count - 1].field, variance, before).findings,
        );
    }
}

proof fn lemma_unary_honest(
    checker: Checker,
    field: FieldType,
    variance: Variance,
    findings: Findings,
)
    ensures
        honest(findings, checker.unary(field, variance, findings).findings),
    decreases field, 1nat,
{
    if let FieldType::Application { id, function, argument } = field {
        let required = unary_required(
            checker.rigids.parameters(),
            id,
            function.identity(),
            *argument,
            variance,
            findings,
        );
        lemma_unary_required_honest(
            checker.rigids.parameters(),
            id,
            function.identity(),
            *argument,
            variance,
            findings,
        );
        lemma_check_honest(checker, *argument, variance, required);
        lemma_honest_transitive(
            findings,
            required,
            checker.checked(*argument, variance, required).findings,
        );
    }
}

proof fn lemma_binary_honest(
    checker: Checker,
    field: FieldType,
    variance: Variance,
    class: ClassReference,
    findings: Findings,
)
    ensures
        honest(findings, checker.binary(field, variance, class, findings).findings),
    decreases field, 2nat,
{
    if let FieldType::Application { id, function, argument } = field {
        if let FieldType::Application { function: head, argument: first_type, .. } = *function {
            let parameters = checker.rigids.parameters();
            let headed = if !mentions_any(parameters, *head) {
                findings
            } else {
                findings.rejected(id)
            };
            let half = argument_reported(parameters, id, *first_type, variance, headed);
            let full = argument_reported(parameters, id, *argument, variance, half);
            lemma_argument_reported(parameters, id, *first_type, variance, headed);
            lemma_argument_reported(parameters, id, *argument, variance, half);
            let reported = full.restricted(
                argument_valid(parameters, *first_type, variance) && argument_valid(
                    parameters,
                    *argument,
                    variance,
                ),
            );
            assert(honest(findings, headed));
            assert(honest(headed, reported)) by {
                assert forall|i: int| 0 <= i < headed.issues.len() implies headed.issues[i]
                    == full.issues[i] by {
                    assert(headed.issues[i] == half.issues[i]);
                }
            }
            let first = checker.checked(*first_type, variance, reported);
            let second = checker.checked(*argument, variance, first.findings);
            lemma_check_honest(checker, *first_type, variance, reported);
            lemma_check_honest(checker, *argument, variance, first.findings);
            lemma_honest_transitive(findings, headed, reported);
            lemma_honest_transitive(findings, reported, first.findings);
            lemma_honest_transitive(findings, first.findings, second.findings);
            let emitted = unary_emitted(
                parameters,
                function.identity(),
                *argument,
                variance,
                second.findings,
            );
            lemma_unary_emitted_honest(
                parameters,
                function.identity(),
                *argument,
                variance,
                second.findings,
            );
            lemma_honest_transitive(findings, second.findings, emitted);
        } else {
            lemma_unary_honest(checker, field, variance, findings);
        }
    }
}

proof fn lemma_mixed_honest(
    checker: Checker,
    field: FieldType,
    variance: Variance,
    findings: Findings,
)
    ensures
        honest(findings, checker.mixed(field, variance, findings).findings),
    decreases field, 3nat,
{
    lemma_mixed_unary_honest(checker, field, variance, findings);
    lemma_mixed_binary_honest(
        checker,
        field,
        variance,
        Variance::Covariant,
        checker.known.bifunctor->0,
        findings,
    );
    lemma_mixed_binary_honest(
        checker,
        field,
        variance,
        Variance::Contravariant,
        checker.known.profunctor->0,
        findings,
    );
}

proof fn lemma_mixed_unary_honest(
    checker: Checker,
    field: FieldType,
    variance: Variance,
    findings: Findings,
)
    ensures
        honest(findings, checker.mixed_unary(field, variance, findings).findings),
    decreases field, 1nat,
{
    if let FieldType::Application { argument, .. } = field {
        lemma_check_honest(checker, *argument, variance, findings);
        lemma_check_honest(checker, *argument, variance.flipped(), findings);
    }
}

proof fn lemma_mixed_binary_honest(
    checker: Checker,
    field: FieldType,
    variance: Variance,
    first_variance: Variance,
    class: ClassReference,
    findings: Findings,
)
    ensures
        honest(
            findings,
            checker.mixed_binary(field, variance, first_variance, class, findings).findings,
        ),
    decreases field, 1nat,
{
    if let FieldType::Application { function, argument, .. } = field {
        if let FieldType::Application { argument: first_type, .. } = *function {
            let below = Checker::below(variance, first_variance);
            let first = checker.checked(*first_type, below, findings);
            let second = checker.checked(*argument, variance, first.findings);
            lemma_check_honest(checker, *first_type, below, findings);
            lemma_check_honest(checker, *argument, variance, first.findings);
            lemma_honest_transitive(findings, first.findings, second.findings);
        }
    }
}

proof fn lemma_fields_honest(checker: Checker, fields: Seq<FieldType>, findings: Findings)
    ensures
        honest(findings, fields_checked(checker, fields, findings).0),
    decreases fields.len(),
{
    if fields.len() > 0 {
        let before = fields_checked(checker, fields.drop_last(), findings).0;
        lemma_fields_honest(checker, fields.drop_last(), findings);
        lemma_check_honest(checker, fields.last(), Variance::Covariant, before);
        lemma_honest_transitive(
            findings,
            before,
            checker.checked(fields.last(), Variance::Covariant, before).findings,
        );
    }
}

/// A recipe is valid exactly if no issue was found with any constructor.
pub proof fn lemma_recipe_valid(
    data: DerivedData,
    constructors: Seq<ConstructorFields>,
    findings: Findings,
)
    ensures
        honest(findings, constructors_checked(data, constructors, findings).0),
    decreases constructors.len(),
{
    if constructors.len() > 0 {
        let before = constructors_checked(data, constructors.drop_last(), findings).0;
        let last = constructors.last();
        lemma_recipe_valid(data, constructors.drop_last(), findings);
        let checker = constructor_checker(data, last);
        let begun = if checker.rigids is Invalid {
            before.rejected(data.derived_type)
        } else {
            before
        };
        lemma_fields_honest(checker, last.fields@, begun);
        let after = fields_checked(checker, last.fields@, begun).0;
        lemma_honest_transitive(findings, before, begun);
        lemma_honest_transitive(findings, begun, after);
    }
}

proof fn lemma_fixed_parameter(
    parameters: Seq<DerivedParameter>,
    field: FieldType,
    part: FieldType,
)
    requires
        !mentions_any(parameters, field),
        forall|name: Name| #[trigger] part.mentions(name) ==> field.mentions(name),
    ensures
        !mentions_any(parameters, part),
{
}

proof fn lemma_unary_required_fixed(
    parameters: Seq<DerivedParameter>,
    type_id: TypeId,
    function: TypeId,
    argument: FieldType,
    variance: Variance,
    findings: Findings,
)
    requires
        !mentions_any(parameters, argument),
    ensures
        unary_required(parameters, type_id, function, argument, variance, findings) == findings,
        argument_reported(parameters, type_id, argument, variance, findings) == findings,
    decreases parameters.len(),
{
    if parameters.len() > 0 {
        let rest = parameters.drop_last();
        assert(!argument.mentions(parameters[parameters.len() - 1].name));
        assert forall|i: int| 0 <= i < rest.len() implies !argument.mentions(
            (#[trigger] rest[i]).name,
        ) by {
            assert(rest[i] == parameters[i]);
        }
        lemma_unary_required_fixed(rest, type_id, function, argument, variance, findings);
    }
}

/// A field in which no parameter occurs needs no operation, and nothing is found of
/// it.
pub proof fn lemma_fixed_field(
    checker: Checker,
    field: FieldType,
    variance: Variance,
    findings: Findings,
)
    requires
        !mentions_any(checker.rigids.parameters(), field),
    ensures
        checker.checked(field, variance, findings) == fixed(findings),
    decreases field, 1nat,
{
    let parameters = checker.rigids.parameters();
    match field {
        FieldType::Function { argument, result, .. } => {
            lemma_fixed_parameter(parameters, field, *argument);
            lemma_fixed_parameter(parameters, field, *result);
            lemma_fixed_field(checker, *argument, variance.flipped(), findings);
            lemma_fixed_field(checker, *result, variance, findings);
            assert(!function_rejected(parameters, field));
            assert(checker.checked(field, variance, findings) == fixed(findings));
        },
        FieldType::Rigid { name, .. } => {
            assert(forall|i: int|
                0 <= i < parameters.len() ==> (#[trigger] parameters[i]).name != name);
        },
        FieldType::Application { id, function, argument } => {
            lemma_fixed_parameter(parameters, field, *argument);
            lemma_fixed_parameter(parameters, field, *function);
            lemma_fixed_field(checker, *argument, variance, findings);
            lemma_fixed_field(checker, *argument, variance.flipped(), findings);
            lemma_unary_required_fixed(
                parameters,
                id,
                function.identity(),
                *argument,
                variance,
                findings,
            );
            assert(argument_valid(parameters, *argument, variance));
            if let FieldType::Application { function: head, argument: first_type, .. } = *function {
                lemma_fixed_parameter(parameters, *function, *head);
                lemma_fixed_parameter(parameters, *function, *first_type);
                lemma_fixed_field(checker, *first_type, variance, findings);
                lemma_fixed_field(checker, *first_type, variance.flipped(), findings);
                lemma_unary_required_fixed(
                    parameters,
                    id,
                    function.identity(),
                    *first_type,
                    variance,
                    findings,
                );
                assert(argument_valid(parameters, *first_type, variance));
            }
            assert(checker.mixed_unary(field, variance, findings) == fixed(findings));
            assert(checker.mixed(field, variance, findings) == fixed(findings));
            assert(checker.unary(field, variance, findings) == fixed(findings));
            if let Some(class) = checker.rigids.binary() {
                assert(checker.binary(field, variance, class, findings) == fixed(findings));
            }
            assert(checker.checked(field, variance, findings) == fixed(findings));
        },
        FieldType::KindApplication { argument, .. } => {
            lemma_fixed_parameter(parameters, field, *argument);
            lemma_fixed_field(checker, *argument, variance, findings);
        },
        FieldType::Row { fields, tail, .. } => {
            lemma_fixed_row(checker, field, fields, fields@.len(), variance, findings);
            if let Some(tail) = tail {
                lemma_fixed_parameter(parameters, field, *tail);
                lemma_fixed_field(checker, *tail, variance, findings);
            }
        },
        _ => {},
    }
}

proof fn lemma_fixed_row(
    checker: Checker,
    field: FieldType,
    fields: Vec<RowField>,
    count: nat,
    variance: Variance,
    findings: Findings,
)
    requires
        field matches FieldType::Row { fields: own, .. } && own == fields,
        !mentions_any(checker.rigids.parameters(), field),
        count <= fields@.len(),
    ensures
        checker.row(fields, count, variance, findings) == (
            findings,
            Seq::<(String, Operation)>::empty(),
        ),
    decreases fields, count,
{
    if count > 0 {
        let part = fields@[count - 1].field;
        lemma_fixed_row(checker, field, fields, (count - 1) as nat, variance, findings);
        assert forall|name: Name| #[trigger] part.mentions(name) implies field.mentions(name) by {
            lemma_mentioned_in_row(fields, count, fields@.len(), name);
        }
        lemma_fixed_parameter(checker.rigids.parameters(), field, part);
        lemma_fixed_field(checker, part, variance, findings);
    }
}

proof fn lemma_mentioned_in_row(fields: Vec<RowField>, count: nat, more: nat, name: Name)
    requires
        0 < count <= more <= fields@.len(),
        fields@[count - 1].field.mentions(name),
    ensures
        fields_mention(fields, more, name),
    decreases more,
{
    if count < more {
        lemma_mentioned_in_row(fields, count, (more - 1) as nat, name);
    }
}

} // verus!
