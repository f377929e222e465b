//! The analysis of constructor fields that derived instances are built from.

use super::super::types::TypeId;
use super::field::{FieldType, RowField};
use super::variance::{
    fields_model, has_head, has_instance_head, has_known, optional_model,
    BinaryApplicationArguments, ClassReference, DerivedParameter, DerivedRigids, Findings,
    FunctionPolicy, InstanceHead, Operation, RecordFieldRecipe, TraversalOperation, Variance,
    VarianceFindings,
};
use vstd::prelude::*;

verus! {

/// The classes that mixed traversals go through.
#[derive(Clone, Copy, Debug, PartialEq, Eq, Structural)]
pub struct KnownClasses {
    pub functor: Option<ClassReference>,
    pub bifunctor: Option<ClassReference>,
    pub contravariant: Option<ClassReference>,
    pub profunctor: Option<ClassReference>,
}

/// What fields are checked against.
#[derive(Debug)]
pub struct VarianceFieldChecker<'a> {
    pub rigids: DerivedRigids,
    /// The constructor of record types.
    pub record: TypeId,
    pub known: KnownClasses,
    pub heads: &'a Vec<InstanceHead>,
}

/// The model of [`VarianceFieldChecker`].
pub struct Checker {
    pub rigids: DerivedRigids,
    pub record: TypeId,
    pub known: KnownClasses,
    pub heads: Seq<InstanceHead>,
}

/// Findings with the operation that was found.
pub struct Checked {
    pub findings: Findings,
    pub operation: Option<Operation>,
}

/// Findings without an operation.
pub open spec fn fixed(findings: Findings) -> Checked {
    Checked { findings, operation: None }
}

/// An operation in a place of its own.
pub open spec fn boxed(operation: Option<Operation>) -> Option<Box<Operation>> {
    match operation {
        Some(operation) => Some(Box::new(operation)),
        None => None,
    }
}

impl Checked {
    /// The operation is that on the argument of a unary application.
    pub open spec fn unary(self, argument_variance: Variance) -> Checked {
        Checked {
            operation: match self.operation {
                Some(argument) => Some(
                    Operation::Unary { argument_variance, argument: Box::new(argument) },
                ),
                None => None,
            },
            ..self
        }
    }
}

/// One of the parameters occurs in the type.
pub open spec fn mentions_any(parameters: Seq<DerivedParameter>, field: FieldType) -> bool {
    exists|i: int| 0 <= i < parameters.len() && field.mentions((#[trigger] parameters[i]).name)
}

/// One of the parameters that must not occur in functions occurs in the type.
pub open spec fn function_rejected(parameters: Seq<DerivedParameter>, field: FieldType) -> bool {
    exists|i: int|
        0 <= i < parameters.len() && (#[trigger] parameters[i]).function_policy is Reject
            && field.mentions(parameters[i].name)
}

/// For each parameter that occurs in the argument, its class is required of the
/// function, and its variance is noted.
pub open spec fn unary_required(
    parameters: Seq<DerivedParameter>,
    type_id: TypeId,
    function: TypeId,
    argument: FieldType,
    variance: Variance,
    findings: Findings,
) -> Findings
    decreases parameters.len(),
{
    if parameters.len() == 0 {
        findings
    } else {
        let before = unary_required(
            parameters.drop_last(),
            type_id,
            function,
            argument,
            variance,
            findings,
        );
        let parameter = parameters.last();
        if argument.mentions(parameter.name) {
            let noted = before.noted(type_id, variance, parameter.expected);
            if variance == parameter.expected {
                noted.emitted_unary(parameter, function)
            } else {
                noted
            }
        } else {
            before
        }
    }
}

/// For each parameter of the variance that occurs in the argument, its class is
/// required of the function.
pub open spec fn unary_emitted(
    parameters: Seq<DerivedParameter>,
    function: TypeId,
    argument: FieldType,
    variance: Variance,
    findings: Findings,
) -> Findings
    decreases parameters.len(),
{
    if parameters.len() == 0 {
        findings
    } else {
        let before = unary_emitted(
            parameters.drop_last(),
            function,
            argument,
            variance,
            findings,
        );
        let parameter = parameters.last();
        if variance == parameter.expected && argument.mentions(parameter.name) {
            before.emitted_unary(parameter, function)
        } else {
            before
        }
    }
}

/// The variance of every parameter that occurs in the argument is reported, where
/// it is not the one expected.
pub open spec fn argument_reported(
    parameters: Seq<DerivedParameter>,
    type_id: TypeId,
    argument: FieldType,
    variance: Variance,
    findings: Findings,
) -> Findings
    decreases parameters.len(),
{
    if parameters.len() == 0 {
        findings
    } else {
        let before = argument_reported(
            parameters.drop_last(),
            type_id,
            argument,
            variance,
            findings,
        );
        if argument.mentions(parameters.last().name) {
            before.reported(type_id, variance, parameters.last().expected)
        } else {
            before
        }
    }
}

/// The parameters that occur in the argument have the variance expected.
pub open spec fn argument_valid(
    parameters: Seq<DerivedParameter>,
    argument: FieldType,
    variance: Variance,
) -> bool {
    forall|i: int|
        0 <= i < parameters.len() && argument.mentions((#[trigger] parameters[i]).name) ==> variance
            == parameters[i].expected
}

/// For every parameter of the variance that occurs in the argument, an instance of
/// its class is available for the function.
pub open spec fn unary_available(
    parameters: Seq<DerivedParameter>,
    heads: Seq<InstanceHead>,
    function: FieldType,
    argument: FieldType,
    variance: Variance,
) -> bool {
    forall|i: int|
        0 <= i < parameters.len() && variance == (#[trigger] parameters[i]).expected
            && argument.mentions(parameters[i].name) ==> has_known(
            heads,
            parameters[i].unary_class,
            function,
        )
}

impl Checker {
    /// How a type is traversed, and what is found on the way.
    pub open spec fn checked(self, field: FieldType, variance: Variance, findings: Findings) -> Checked
        decreases field, 9nat,
    {
        match field {
            FieldType::Function { id, argument, result } => {
                if function_rejected(self.rigids.parameters(), field) {
                    fixed(findings.rejected(id))
                } else {
                    let first = self.checked(*argument, variance.flipped(), findings);
                    let second = self.checked(*result, variance, first.findings);
                    Checked {
                        findings: second.findings,
                        operation: if first.operation is Some || second.operation is Some {
                            Some(
                                Operation::Function {
                                    argument: boxed(first.operation),
                                    result: boxed(second.operation),
                                },
                            )
                        } else {
                            None
                        },
                    }
                }
            },
            FieldType::Rigid { id, name } => match self.rigids.named(name) {
                Some(parameter) => Checked {
                    findings: findings.noted(id, variance, parameter.expected),
                    operation: Some(
                        Operation::Parameter { parameter: parameter.traversal_parameter },
                    ),
                },
                None => fixed(findings),
            },
            FieldType::Application { function, argument, .. } => {
                if function.identity() == self.record {
                    self.checked(*argument, variance, findings)
                } else if self.rigids.mixed() {
                    self.mixed(field, variance, findings)
                } else {
                    match self.rigids.binary() {
                        Some(class) => self.binary(field, variance, class, findings),
                        None => self.unary(field, variance, findings),
                    }
                }
            },
            FieldType::KindApplication { argument, .. } => self.checked(
                *argument,
                variance,
                findings,
            ),
            FieldType::Row { fields, tail, .. } => {
                let (found, operations) = self.row(fields, fields@.len(), variance, findings);
                let last = match tail {
                    Some(tail) => self.checked(*tail, variance, found).findings,
                    None => found,
                };
                Checked {
                    findings: last,
                    operation: if operations.len() > 0 {
                        Some(Operation::Record { fields: operations })
                    } else {
                        None
                    },
                }
            },
            _ => fixed(findings),
        }
    }

    /// How the first fields of a row are traversed. Those that need no operation are
    /// left out.
    pub open spec fn row(
        self,
        fields: Vec<RowField>,
        count: nat,
        variance: Variance,
        findings: Findings,
    ) -> (Findings, Seq<(String, Operation)>)
        decreases fields, count,
    {
        if count == 0 || count > fields@.len() {
            (findings, Seq::empty())
        } else {
            let (before, operations) = self.row(fields, (count - 1) as nat, variance, findings);
            let field = fields@[count - 1];
            let checked = self.checked(field.field, variance, before);
            (
                checked.findings,
                match checked.operation {
                    Some(operation) => operations.push((field.label, operation)),
                    None => operations,
                },
            )
        }
    }

    /// How the argument of an application is traversed through the parameters' own
    /// classes.
    pub open spec fn unary(self, field: FieldType, variance: Variance, findings: Findings) -> Checked
        decreases field, 1nat,
    {
        match field {
            FieldType::Application { id, function, argument } => {
                let required = unary_required(
                    self.rigids.parameters(),
                    id,
                    function.identity(),
                    *argument,
                    variance,
                    findings,
                );
                self.checked(*argument, variance, required).unary(Variance::Covariant)
            },
            _ => fixed(findings),
        }
    }

    /// How the arguments of an application are traversed where there is a class for
    /// both of them.
    pub open spec fn binary(
        self,
        field: FieldType,
        variance: Variance,
        class: ClassReference,
        findings: Findings,
    ) -> Checked
        decreases field, 2nat,
    {
        match field {
            FieldType::Application { id, function, argument } => match *function {
                FieldType::Application { function: head, argument: first_type, .. } => {
                    let parameters = self.rigids.parameters();
                    let head_is_fixed = !mentions_any(parameters, *head);
                    let first_is_valid = argument_valid(parameters, *first_type, variance);
                    let second_is_valid = argument_valid(parameters, *argument, variance);
                    let headed = if head_is_fixed {
                        findings
                    } else {
                        findings.rejected(id)
                    };
                    let reported = argument_reported(
                        parameters,
                        id,
                        *argument,
                        variance,
                        argument_reported(parameters, id, *first_type, variance, headed),
                    ).restricted(first_is_valid && second_is_valid);
                    let first = self.checked(*first_type, variance, reported);
                    let second = self.checked(*argument, variance, first.findings);
                    if first.operation is Some {
                        Checked {
                            findings: second.findings.emitted_if(
                                head_is_fixed && first_is_valid && second_is_valid,
                                class,
                                head.identity(),
                            ),
                            operation: Some(
                                Operation::Binary {
                                    first_variance: Variance::Covariant,
                                    first: boxed(first.operation),
                                    second: boxed(second.operation),
                                },
                            ),
                        }
                    } else if second.operation is Some {
                        // A right-only occurrence goes through the binary class only
                        // where the unary one is not available.
                        if has_head(self.heads, class, *head) && !unary_available(
                            parameters,
                            self.heads,
                            *function,
                            *argument,
                            variance,
                        ) {
                            Checked {
                                findings: second.findings.emitted_if(
                                    head_is_fixed && second_is_valid,
                                    class,
                                    head.identity(),
                                ),
                                operation: Some(
                                    Operation::Binary {
                                        first_variance: Variance::Covariant,
                                        first: None,
                                        second: boxed(second.operation),
                                    },
                                ),
                            }
                        } else {
                            Checked {
                                findings: if second.findings.valid && head_is_fixed
                                    && second_is_valid {
                                    unary_emitted(
                                        parameters,
                                        function.identity(),
                                        *argument,
                                        variance,
                                        second.findings,
                                    )
                                } else {
                                    second.findings
                                },
                                operation: second.operation,
                            }.unary(Variance::Covariant)
                        }
                    } else {
                        fixed(second.findings)
                    }
                },
                _ => self.unary(field, variance, findings),
            },
            _ => fixed(findings),
        }
    }

    /// How the arguments of an application are traversed where parameters can occur
    /// in both variances. The classes of which instances are available decide.
    pub open spec fn mixed(self, field: FieldType, variance: Variance, findings: Findings) -> Checked
        decreases field, 3nat,
    {
        match field {
            FieldType::Application { id, function, .. } => match *function {
                FieldType::Application { function: head, argument: first_type, .. } => {
                    if mentions_any(self.rigids.parameters(), *head) {
                        fixed(findings.rejected(id))
                    } else if has_known(self.heads, self.known.bifunctor, *head) {
                        self.mixed_binary(
                            field,
                            variance,
                            Variance::Covariant,
                            self.known.bifunctor->0,
                            findings,
                        )
                    } else if has_known(self.heads, self.known.profunctor, *head) {
                        self.mixed_binary(
                            field,
                            variance,
                            Variance::Contravariant,
                            self.known.profunctor->0,
                            findings,
                        )
                    } else if mentions_any(self.rigids.parameters(), *first_type) {
                        fixed(findings.rejected(id))
                    } else {
                        self.mixed_unary(field, variance, findings)
                    }
                },
                _ => self.mixed_unary(field, variance, findings),
            },
            _ => fixed(findings),
        }
    }

    pub open spec fn mixed_unary(self, field: FieldType, variance: Variance, findings: Findings) -> Checked
        decreases field, 1nat,
    {
        match field {
            FieldType::Application { id, function, argument } => {
                let parameters = self.rigids.parameters();
                if mentions_any(parameters, *function) {
                    fixed(findings.rejected(id))
                } else if !mentions_any(parameters, *argument) {
                    fixed(findings)
                } else if has_known(self.heads, self.known.functor, *function) {
                    self.mixed_argument(
                        field,
                        variance,
                        Variance::Covariant,
                        self.known.functor->0,
                        findings,
                    )
                } else if has_known(self.heads, self.known.contravariant, *function) {
                    self.mixed_argument(
                        field,
                        variance,
                        Variance::Contravariant,
                        self.known.contravariant->0,
                        findings,
                    )
                } else {
                    fixed(findings.rejected(id))
                }
            },
            _ => fixed(findings),
        }
    }

    /// The variance below an edge of a variance.
    pub open spec fn below(variance: Variance, edge: Variance) -> Variance {
        match edge {
            Variance::Covariant => variance,
            Variance::Contravariant => variance.flipped(),
        }
    }

    /// How the argument of an application is traversed through a class.
    pub open spec fn mixed_argument(
        self,
        field: FieldType,
        variance: Variance,
        edge: Variance,
        class: ClassReference,
        findings: Findings,
    ) -> Checked
        decreases field, 0nat,
    {
        match field {
            FieldType::Application { function, argument, .. } => {
                let checked = self.checked(*argument, Checker::below(variance, edge), findings);
                Checked {
                    findings: checked.findings.emitted_if(
                        checked.operation is Some,
                        class,
                        function.identity(),
                    ),
                    ..checked
                }.unary(edge)
            },
            _ => fixed(findings),
        }
    }

    /// How both arguments of an application are traversed through a class. A
    /// right-only occurrence goes through the functor of the partial application
    /// where that is available.
    pub open spec fn mixed_binary(
        self,
        field: FieldType,
        variance: Variance,
        first_variance: Variance,
        class: ClassReference,
        findings: Findings,
    ) -> Checked
        decreases field, 1nat,
    {
        match field {
            FieldType::Application { function, argument, .. } => match *function {
                FieldType::Application { function: head, argument: first_type, .. } => {
                    let first = self.checked(
                        *first_type,
                        Checker::below(variance, first_variance),
                        findings,
                    );
                    let second = self.checked(*argument, variance, first.findings);
                    if first.operation is None && second.operation is Some && has_known(
                        self.heads,
                        self.known.functor,
                        *function,
                    ) {
                        Checked {
                            findings: second.findings.emitted_if(
                                true,
                                self.known.functor->0,
                                function.identity(),
                            ),
                            operation: second.operation,
                        }.unary(Variance::Covariant)
                    } else if first.operation is None && second.operation is None {
                        fixed(second.findings)
                    } else {
                        Checked {
                            findings: second.findings.emitted_if(true, class, head.identity()),
                            operation: Some(
                                Operation::Binary {
                                    first_variance,
                                    first: boxed(first.operation),
                                    second: boxed(second.operation),
                                },
                            ),
                        }
                    }
                },
                _ => fixed(findings),
            },
            _ => fixed(findings),
        }
    }
}

impl<'a> VarianceFieldChecker<'a> {
    pub open spec fn model(self) -> Checker {
        Checker {
            rigids: self.rigids,
            record: self.record,
            known: self.known,
            heads: self.heads@,
        }
    }

    /// The operation on a type, which is expanded.
    pub fn check(
        &self,
        field: &FieldType,
        variance: Variance,
        findings: &mut VarianceFindings,
    ) -> (operation: Option<TraversalOperation>)
        ensures
            (Checked { findings: final(findings)@, operation: optional_model(operation) })
                == self.model().checked(*field, variance, old(findings)@),
        decreases *field, 9nat,
    {
        match field {
            FieldType::Function { id, argument, result } => {
                // Function results can be transformed pointwise, but an arbitrary
                // function cannot be folded or traversed structurally.
                if self.rejects_function(field) {
                    findings.reject(*id);
                    return None;
                }
                let argument = self.check(argument, variance.flip(), findings);
                let result = self.check(result, variance, findings);
                if argument.is_none() && result.is_none() {
                    return None;
                }
                let argument = match argument {
                    Some(argument) => Some(Box::new(argument)),
                    None => None,
                };
                let result = match result {
                    Some(result) => Some(Box::new(result)),
                    None => None,
                };
                Some(TraversalOperation::Function { argument, result })
            },
            FieldType::Rigid { id, name } => {
                match self.rigids.get(*name) {
                    Some(parameter) => {
                        findings.note(*id, variance, parameter.expected);
                        Some(
                            TraversalOperation::Parameter {
                                parameter: parameter.traversal_parameter,
                            },
                        )
                    },
                    None => None,
                }
            },
            FieldType::Application { function, argument, .. } => {
                if function.id() == self.record {
                    return self.check(argument, variance, findings);
                }
                if self.rigids.supports_contravariant_traversal() {
                    return self.check_mixed_application(field, variance, findings);
                }
                match self.rigids.binary_class() {
                    Some(class) => self.check_configured_binary_application(
                        field,
                        variance,
                        class,
                        findings,
                    ),
                    None => self.check_configured_unary_application(field, variance, findings),
                }
            },
            FieldType::KindApplication { argument, .. } => self.check(argument, variance, findings),
            FieldType::Row { fields, tail, .. } => {
                let mut operations: Vec<RecordFieldRecipe> = Vec::new();
                let mut index: usize = 0;
                assert(fields_model(operations, 0) =~= Seq::empty());
                while index < fields.len()
                    invariant
                        index <= fields.len(),
                        *field matches FieldType::Row { fields: own, .. } && own == *fields,
                        (findings@, fields_model(operations, operations@.len())) == self.model().row(
                            *fields,
                            index as nat,
                            variance,
                            old(findings)@,
                        ),
                    decreases fields.len() - index,
                {
                    let found = self.check(&fields[index].field, variance, findings);
                    match found {
                        Some(operation) => {
                            let ghost before = operations;
                            operations.push(
                                RecordFieldRecipe { label: fields[index].label.clone(), operation },
                            );
                            proof {
                                lemma_fields_model_prefix(before, operations, before@.len());
                            }
                        },
                        None => {},
                    }
                    index += 1;
                }
                match tail {
                    Some(tail) => {
                        let _ = self.check(tail, variance, findings);
                    },
                    None => {},
                }
                proof {
                    lemma_fields_model_len(operations, operations@.len());
                }
                if operations.len() > 0 {
                    Some(TraversalOperation::Record { fields: operations })
                } else {
                    None
                }
            },
            _ => None,
        }
    }

    fn rejects_function(&self, field: &FieldType) -> (rejected: bool)
        ensures
            rejected == function_rejected(self.rigids.parameters(), *field),
    {
        let parameters = self.rigids.iter();
        let mut index: usize = 0;
        while index < parameters.len()
            invariant
                index <= parameters.len(),
                parameters@ == self.rigids.parameters(),
                forall|i: int|
                    0 <= i < index ==> !((#[trigger] parameters@[i]).function_policy is Reject
                        && field.mentions(parameters@[i].name)),
            decreases parameters.len() - index,
        {
            if let FunctionPolicy::Reject = parameters[index].function_policy {
                if field.contains_rigid(parameters[index].name) {
                    assert(parameters@[index as int].function_policy is Reject);
                    return true;
                }
            }
            index += 1;
        }
        false
    }

    fn contains_parameter(&self, field: &FieldType) -> (mentioned: bool)
        ensures
            mentioned == mentions_any(self.rigids.parameters(), *field),
    {
        let parameters = self.rigids.iter();
        let mut index: usize = 0;
        while index < parameters.len()
            invariant
                index <= parameters.len(),
                parameters@ == self.rigids.parameters(),
                forall|i: int| 0 <= i < index ==> !field.mentions((#[trigger] parameters@[i]).name),
            decreases parameters.len() - index,
        {
            if field.contains_rigid(parameters[index].name) {
                assert(field.mentions(parameters@[index as int].name));
                return true;
            }
            index += 1;
        }
        false
    }

    fn validate_application_argument(
        &self,
        type_id: TypeId,
        argument: &FieldType,
        variance: Variance,
        findings: &mut VarianceFindings,
    ) -> (valid: bool)
        ensures
            valid == argument_valid(self.rigids.parameters(), *argument, variance),
            final(findings)@ == argument_reported(
                self.rigids.parameters(),
                type_id,
                *argument,
                variance,
                old(findings)@,
            ),
    {
        let parameters = self.rigids.iter();
        let mut valid = true;
        let mut index: usize = 0;
        assert(parameters@.take(0) =~= Seq::empty());
        while index < parameters.len()
            invariant
                index <= parameters.len(),
                parameters@ == self.rigids.parameters(),
                valid == argument_valid(parameters@.take(index as int), *argument, variance),
                findings@ == argument_reported(
                    parameters@.take(index as int),
                    type_id,
                    *argument,
                    variance,
                    old(findings)@,
                ),
            decreases parameters.len() - index,
        {
            let ghost taken = parameters@.take(index + 1);
            let ghost before = parameters@.take(index as int);
            proof {
                assert(taken.drop_last() =~= before);
                assert(taken[index as int] == parameters@[index as int]);
                assert forall|i: int| 0 <= i < index implies taken[i] == before[i] by {}
            }
            let was_valid = valid;
            if argument.contains_rigid(parameters[index].name) {
                let fits = findings.emit_variance_error(
                    type_id,
                    variance,
                    parameters[index].expected,
                );
                valid = valid && fits;
            }
            proof {
                if valid {
                    assert(argument_valid(taken, *argument, variance));
                } else if was_valid {
                    assert(argument.mentions(taken[index as int].name));
                } else {
                    let i = choose|i: int|
                        0 <= i < before.len() && argument.mentions((#[trigger] before[i]).name)
                            && variance != before[i].expected;
                    assert(argument.mentions(taken[i].name));
                }
            }
            index += 1;
        }
        assert(parameters@.take(index as int) =~= parameters@);
        valid
    }

    fn emit_unary_constraints(
        &self,
        function: TypeId,
        argument: &FieldType,
        variance: Variance,
        findings: &mut VarianceFindings,
    )
        ensures
            final(findings)@ == unary_emitted(
                self.rigids.parameters(),
                function,
                *argument,
                variance,
                old(findings)@,
            ),
    {
        let parameters = self.rigids.iter();
        let mut index: usize = 0;
        assert(parameters@.take(0) =~= Seq::empty());
        while index < parameters.len()
            invariant
                index <= parameters.len(),
                parameters@ == self.rigids.parameters(),
                findings@ == unary_emitted(
                    parameters@.take(index as int),
                    function,
                    *argument,
                    variance,
                    old(findings)@,
                ),
            decreases parameters.len() - index,
        {
            assert(parameters@.take(index + 1).drop_last() =~= parameters@.take(index as int));
            let parameter = parameters[index];
            if variance == parameter.expected && argument.contains_rigid(parameter.name) {
                findings.emit_unary_constraint(parameter, function);
            }
            index += 1;
        }
        assert(parameters@.take(index as int) =~= parameters@);
    }

    fn unary_instances_available(
        &self,
        function: &FieldType,
        argument: &FieldType,
        variance: Variance,
    ) -> (available: bool)
        ensures
            available == unary_available(
                self.rigids.parameters(),
                self.heads@,
                *function,
                *argument,
                variance,
            ),
    {
        let parameters = self.rigids.iter();
        let mut index: usize = 0;
        while index < parameters.len()
            invariant
                index <= parameters.len(),
                parameters@ == self.rigids.parameters(),
                forall|i: int|
                    0 <= i < index && variance == (#[trigger] parameters@[i]).expected
                        && argument.mentions(parameters@[i].name) ==> has_known(
                        self.heads@,
                        parameters@[i].unary_class,
                        *function,
                    ),
            decreases parameters.len() - index,
        {
            let parameter = parameters[index];
            if variance == parameter.expected && argument.contains_rigid(parameter.name) {
                assert(parameters@[index as int] == parameter);
                match parameter.unary_class {
                    Some(class) => {
                        if !has_instance_head(self.heads, class, function) {
                            return false;
                        }
                    },
                    None => {
                        return false;
                    },
                }
            }
            index += 1;
        }
        true
    }

    fn check_configured_unary_application(
        &self,
        field: &FieldType,
        variance: Variance,
        findings: &mut VarianceFindings,
    ) -> (operation: Option<TraversalOperation>)
        ensures
            (Checked { findings: final(findings)@, operation: optional_model(operation) })
                == self.model().unary(*field, variance, old(findings)@),
        decreases *field, 1nat,
    {
        let FieldType::Application { id, function, argument } = field else {
            return None;
        };
        let parameters = self.rigids.iter();
        let mut index: usize = 0;
        assert(parameters@.take(0) =~= Seq::empty());
        while index < parameters.len()
            invariant
                index <= parameters.len(),
                parameters@ == self.rigids.parameters(),
                findings@ == unary_required(
                    parameters@.take(index as int),
                    *id,
                    function.identity(),
                    **argument,
                    variance,
                    old(findings)@,
                ),
            decreases parameters.len() - index,
        {
            assert(parameters@.take(index + 1).drop_last() =~= parameters@.take(index as int));
            let parameter = parameters[index];
            if argument.contains_rigid(parameter.name) {
                findings.note(*id, variance, parameter.expected);
                if variance == parameter.expected {
                    findings.emit_unary_constraint(parameter, function.id());
                }
            }
            index += 1;
        }
        assert(parameters@.take(index as int) =~= parameters@);
        match self.check(argument, variance, findings) {
            Some(argument) => Some(
                TraversalOperation::UnaryApplication {
                    argument_variance: Variance::Covariant,
                    argument: Box::new(argument),
                },
            ),
            None => None,
        }
    }

    fn check_configured_binary_application(
        &self,
        field: &FieldType,
        variance: Variance,
        class: ClassReference,
        findings: &mut VarianceFindings,
    ) -> (operation: Option<TraversalOperation>)
        ensures
            (Checked { findings: final(findings)@, operation: optional_model(operation) })
                == self.model().binary(*field, variance, class, old(findings)@),
        decreases *field, 2nat,
    {
        let FieldType::Application { id, function, argument } = field else {
            return None;
        };
        let FieldType::Application { function: head, argument: first_type, .. } = &**function else {
            return self.check_configured_unary_application(field, variance, findings);
        };
        let head_is_fixed = !self.contains_parameter(head);
        if !head_is_fixed {
            findings.reject(*id);
        }
        let first_is_valid = self.validate_application_argument(
            *id,
            first_type,
            variance,
            findings,
        );
        let second_is_valid = self.validate_application_argument(*id, argument, variance, findings);
        findings.valid = findings.valid && first_is_valid && second_is_valid;
        let first = self.check(first_type, variance, findings);
        let second = self.check(argument, variance, findings);
        match (first, second) {
            (Some(first), second) => {
                findings.emit_constraint_if(
                    head_is_fixed && first_is_valid && second_is_valid,
                    class,
                    head.id(),
                );
                let arguments = match second {
                    Some(second) => BinaryApplicationArguments::Both {
                        first: Box::new(first),
                        second: Box::new(second),
                    },
                    None => BinaryApplicationArguments::First(Box::new(first)),
                };
                Some(
                    TraversalOperation::BinaryApplication {
                        first_variance: Variance::Covariant,
                        arguments,
                    },
                )
            },
            (None, Some(second)) => {
                let binary_available = has_instance_head(self.heads, class, head);
                let unary_available = self.unary_instances_available(function, argument, variance);
                if binary_available && !unary_available {
                    findings.emit_constraint_if(
                        head_is_fixed && second_is_valid,
                        class,
                        head.id(),
                    );
                    return Some(
                        TraversalOperation::BinaryApplication {
                            first_variance: Variance::Covariant,
                            arguments: BinaryApplicationArguments::Second(Box::new(second)),
                        },
                    );
                }
                if findings.valid && head_is_fixed && second_is_valid {
                    self.emit_unary_constraints(function.id(), argument, variance, findings);
                }
                Some(
                    TraversalOperation::UnaryApplication {
                        argument_variance: Variance::Covariant,
                        argument: Box::new(second),
                    },
                )
            },
            (None, None) => None,
        }
    }

    fn check_mixed_application(
        &self,
        field: &FieldType,
        variance: Variance,
        findings: &mut VarianceFindings,
    ) -> (operation: Option<TraversalOperation>)
        ensures
            (Checked { findings: final(findings)@, operation: optional_model(operation) })
                == self.model().mixed(*field, variance, old(findings)@),
        decreases *field, 3nat,
    {
        let FieldType::Application { id, function, .. } = field else {
            return None;
        };
        let FieldType::Application { function: head, argument: first_type, .. } = &**function else {
            return self.check_mixed_unary_application(field, variance, findings);
        };
        if self.contains_parameter(head) {
            findings.reject(*id);
            return None;
        }
        // Once a class is available, an error below it is final rather than a reason
        // to try the next class.
        if let Some(bifunctor) = self.known.bifunctor {
            if has_instance_head(self.heads, bifunctor, head) {
                return self.check_mixed_binary_application(
                    field,
                    variance,
                    Variance::Covariant,
                    bifunctor,
                    findings,
                );
            }
        }
        if let Some(profunctor) = self.known.profunctor {
            if has_instance_head(self.heads, profunctor, head) {
                return self.check_mixed_binary_application(
                    field,
                    variance,
                    Variance::Contravariant,
                    profunctor,
                    findings,
                );
            }
        }
        if self.contains_parameter(first_type) {
            findings.reject(*id);
            return None;
        }
        self.check_mixed_unary_application(field, variance, findings)
    }

    fn check_mixed_unary_application(
        &self,
        field: &FieldType,
        variance: Variance,
        findings: &mut VarianceFindings,
    ) -> (operation: Option<TraversalOperation>)
        ensures
            (Checked { findings: final(findings)@, operation: optional_model(operation) })
                == self.model().mixed_unary(*field, variance, old(findings)@),
        decreases *field, 1nat,
    {
        let FieldType::Application { id, function, argument } = field else {
            return None;
        };
        if self.contains_parameter(function) {
            findings.reject(*id);
            return None;
        }
        if !self.contains_parameter(argument) {
            return None;
        }
        if let Some(functor) = self.known.functor {
            if has_instance_head(self.heads, functor, function) {
                return self.check_mixed_argument(
                    field,
                    variance,
                    Variance::Covariant,
                    functor,
                    findings,
                );
            }
        }
        if let Some(contravariant) = self.known.contravariant {
            if has_instance_head(self.heads, contravariant, function) {
                return self.check_mixed_argument(
                    field,
                    variance,
                    Variance::Contravariant,
                    contravariant,
                    findings,
                );
            }
        }
        findings.reject(*id);
        None
    }

    fn check_mixed_argument(
        &self,
        field: &FieldType,
        variance: Variance,
        edge: Variance,
        class: ClassReference,
        findings: &mut VarianceFindings,
    ) -> (operation: Option<TraversalOperation>)
        ensures
            (Checked { findings: final(findings)@, operation: optional_model(operation) })
                == self.model().mixed_argument(*field, variance, edge, class, old(findings)@),
        decreases *field, 0nat,
    {
        let FieldType::Application { function, argument, .. } = field else {
            return None;
        };
        let inner = match edge {
            Variance::Covariant => variance,
            Variance::Contravariant => variance.flip(),
        };
        match self.check(argument, inner, findings) {
            Some(argument) => {
                findings.emit_constraint_if(true, class, function.id());
                Some(
                    TraversalOperation::UnaryApplication {
                        argument_variance: edge,
                        argument: Box::new(argument),
                    },
                )
            },
            None => None,
        }
    }

    fn check_mixed_binary_application(
        &self,
        field: &FieldType,
        variance: Variance,
        first_variance: Variance,
        class: ClassReference,
        findings: &mut VarianceFindings,
    ) -> (operation: Option<TraversalOperation>)
        ensures
            (Checked { findings: final(findings)@, operation: optional_model(operation) })
                == self.model().mixed_binary(
                *field,
                variance,
                first_variance,
                class,
                old(findings)@,
            ),
        decreases *field, 1nat,
    {
        let FieldType::Application { function, argument, .. } = field else {
            return None;
        };
        let FieldType::Application { function: head, argument: first_type, .. } = &**function else {
            return None;
        };
        let first_type_variance = match first_variance {
            Variance::Covariant => variance,
            Variance::Contravariant => variance.flip(),
        };
        let first = self.check(first_type, first_type_variance, findings);
        let second = self.check(argument, variance, findings);
        let arguments = match (first, second) {
            (Some(first), Some(second)) => BinaryApplicationArguments::Both {
                first: Box::new(first),
                second: Box::new(second),
            },
            (Some(first), None) => BinaryApplicationArguments::First(Box::new(first)),
            (None, Some(second)) => {
                if let Some(functor) = self.known.functor {
                    if has_instance_head(self.heads, functor, function) {
                        findings.emit_constraint_if(true, functor, function.id());
                        return Some(
                            TraversalOperation::UnaryApplication {
                                argument_variance: Variance::Covariant,
                                argument: Box::new(second),
                            },
                        );
                    }
                }
                BinaryApplicationArguments::Second(Box::new(second))
            },
            (None, None) => {
                return None;
            },
        };
        findings.emit_constraint_if(true, class, head.id());
        Some(TraversalOperation::BinaryApplication { first_variance, arguments })
    }
}

proof fn lemma_fields_model_len(fields: Vec<RecordFieldRecipe>, count: nat)
    requires
        count <= fields@.len(),
    ensures
        fields_model(fields, count).len() == count,
    decreases count,
{
    if count > 0 {
        lemma_fields_model_len(fields, (count - 1) as nat);
    }
}

proof fn lemma_fields_model_prefix(
    before: Vec<RecordFieldRecipe>,
    after: Vec<RecordFieldRecipe>,
    count: nat,
)
    requires
        count <= before@.len() <= after@.len(),
        forall|i: int| 0 <= i < before@.len() ==> before@[i] == after@[i],
    ensures
        fields_model(before, count) == fields_model(after, count),
    decreases count,
{
    if count > 0 {
        lemma_fields_model_prefix(before, after, (count - 1) as nat);
    }
}

} // verus!
