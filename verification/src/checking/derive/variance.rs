//! How a type's parameters occur in the fields of its constructors.

use super::super::error::ErrorKind;
use super::super::state::{next_name, CheckState, CheckedModule};
use super::super::types::{extends, FileId, Name, SmolStrId, Type, TypeId, Types};
use super::field::FieldType;
use crate::indexing::items::{TermItemId, TypeItemId};
use vstd::prelude::*;

verus! {

#[derive(Clone, Copy, Debug, PartialEq, Eq, Structural)]
pub enum Variance {
    Covariant,
    Contravariant,
}

impl Variance {
    /// The other variance.
    pub open spec fn flipped(self) -> Variance {
        match self {
            Variance::Covariant => Variance::Contravariant,
            Variance::Contravariant => Variance::Covariant,
        }
    }

    pub fn flip(self) -> (flipped: Variance)
        ensures
            flipped == self.flipped(),
    {
        match self {
            Variance::Covariant => Variance::Contravariant,
            Variance::Contravariant => Variance::Covariant,
        }
    }
}

/// To flip twice changes nothing, to flip once does.
pub proof fn lemma_flip_involutive(variance: Variance)
    ensures
        variance.flipped().flipped() == variance,
        variance.flipped() != variance,
{
}

#[derive(Clone, Copy, Debug, PartialEq, Eq, Structural)]
pub struct ClassReference {
    pub file: FileId,
    pub item: TypeItemId,
}

/// Whether functions of a parameter can be derived through.
#[derive(Clone, Copy, Debug, PartialEq, Eq, Structural)]
pub enum FunctionPolicy {
    Allow,
    Reject,
}

#[derive(Clone, Copy, Debug, PartialEq, Eq, Structural)]
pub struct ParameterConfig {
    pub variance: Variance,
    pub unary_class: Option<ClassReference>,
    pub function_policy: FunctionPolicy,
}

#[allow(inconsistent_fields)]
#[derive(Clone, Copy, Debug, PartialEq, Eq, Structural)]
pub enum VarianceConfig {
    Single { parameter: ParameterConfig, binary_class: Option<ClassReference> },
    Pair {
        first: ParameterConfig,
        second: ParameterConfig,
        binary_class: Option<ClassReference>,
    },
}

#[derive(Debug)]
pub struct VarianceRecipe {
    pub constructors: Vec<ConstructorRecipe>,
    pub valid: bool,
}

#[derive(Debug)]
pub struct ConstructorRecipe {
    pub constructor_id: TermItemId,
    pub fields: Vec<Option<TraversalOperation>>,
}

#[derive(Clone, Copy, Debug, PartialEq, Eq, Structural)]
pub enum TraversalParameter {
    First,
    Second,
}

/// How a value is traversed to the parameters in it.
#[allow(inconsistent_fields)]
#[derive(Debug)]
pub enum TraversalOperation {
    Parameter { parameter: TraversalParameter },
    Function { argument: Option<Box<TraversalOperation>>, result: Option<Box<TraversalOperation>> },
    UnaryApplication { argument_variance: Variance, argument: Box<TraversalOperation> },
    // Bifunctor and Profunctor are covariant in their second argument.
    BinaryApplication { first_variance: Variance, arguments: BinaryApplicationArguments },
    Record { fields: Vec<RecordFieldRecipe> },
}

#[allow(inconsistent_fields)]
#[derive(Debug)]
pub enum BinaryApplicationArguments {
    First(Box<TraversalOperation>),
    Second(Box<TraversalOperation>),
    Both { first: Box<TraversalOperation>, second: Box<TraversalOperation> },
}

#[derive(Debug)]
pub struct RecordFieldRecipe {
    pub label: String,
    pub operation: TraversalOperation,
}

/// The model of [`TraversalOperation`].
#[allow(inconsistent_fields)]
pub enum Operation {
    Parameter { parameter: TraversalParameter },
    Function { argument: Option<Box<Operation>>, result: Option<Box<Operation>> },
    Unary { argument_variance: Variance, argument: Box<Operation> },
    Binary {
        first_variance: Variance,
        first: Option<Box<Operation>>,
        second: Option<Box<Operation>>,
    },
    Record { fields: Seq<(String, Operation)> },
}

impl BinaryApplicationArguments {
    /// The operation on the first argument.
    pub open spec fn on_first(self) -> Option<TraversalOperation> {
        match self {
            BinaryApplicationArguments::First(first) => Some(*first),
            BinaryApplicationArguments::Second(_) => None,
            BinaryApplicationArguments::Both { first, .. } => Some(*first),
        }
    }

    /// The operation on the second argument.
    pub open spec fn on_second(self) -> Option<TraversalOperation> {
        match self {
            BinaryApplicationArguments::First(_) => None,
            BinaryApplicationArguments::Second(second) => Some(*second),
            BinaryApplicationArguments::Both { second, .. } => Some(*second),
        }
    }

    pub fn operations(&self) -> (operations: (
        Option<&TraversalOperation>,
        Option<&TraversalOperation>,
    ))
        ensures
            match operations.0 {
                Some(first) => self.on_first() == Some(*first),
                None => self.on_first() is None,
            },
            match operations.1 {
                Some(second) => self.on_second() == Some(*second),
                None => self.on_second() is None,
            },
            operations.0 is Some || operations.1 is Some,
    {
        match self {
            BinaryApplicationArguments::First(first) => (Some(&**first), None),
            BinaryApplicationArguments::Second(second) => (None, Some(&**second)),
            BinaryApplicationArguments::Both { first, second } => (Some(&**first), Some(&**second)),
        }
    }
}

impl TraversalOperation {
    pub open spec fn model(self) -> Operation
        decreases self, 0nat,
    {
        match self {
            TraversalOperation::Parameter { parameter } => Operation::Parameter { parameter },
            TraversalOperation::Function { argument, result } => Operation::Function {
                argument: match argument {
                    Some(argument) => Some(Box::new(argument.model())),
                    None => None,
                },
                result: match result {
                    Some(result) => Some(Box::new(result.model())),
                    None => None,
                },
            },
            TraversalOperation::UnaryApplication { argument_variance, argument } => {
                Operation::Unary { argument_variance, argument: Box::new(argument.model()) }
            },
            TraversalOperation::BinaryApplication { first_variance, arguments } => {
                match arguments {
                    BinaryApplicationArguments::First(first) => Operation::Binary {
                        first_variance,
                        first: Some(Box::new(first.model())),
                        second: None,
                    },
                    BinaryApplicationArguments::Second(second) => Operation::Binary {
                        first_variance,
                        first: None,
                        second: Some(Box::new(second.model())),
                    },
                    BinaryApplicationArguments::Both { first, second } => Operation::Binary {
                        first_variance,
                        first: Some(Box::new(first.model())),
                        second: Some(Box::new(second.model())),
                    },
                }
            },
            TraversalOperation::Record { fields } => Operation::Record {
                fields: fields_model(fields, fields@.len()),
            },
        }
    }
}

/// The models of the first fields.
pub open spec fn fields_model(fields: Vec<RecordFieldRecipe>, count: nat) -> Seq<
    (String, Operation),
>
    decreases fields, count,
{
    if count == 0 || count > fields@.len() {
        Seq::empty()
    } else {
        let field = fields@[count - 1];
        fields_model(fields, (count - 1) as nat).push((field.label, field.operation.model()))
    }
}

/// The model of an operation that may be missing.
pub open spec fn optional_model(operation: Option<TraversalOperation>) -> Option<Operation> {
    match operation {
        Some(operation) => Some(operation.model()),
        None => None,
    }
}

// Parameters

/// A parameter that an instance is derived for.
#[derive(Clone, Copy, Debug, PartialEq, Eq, Structural)]
pub struct DerivedParameter {
    pub name: Name,
    pub traversal_parameter: TraversalParameter,
    pub expected: Variance,
    pub unary_class: Option<ClassReference>,
    pub function_policy: FunctionPolicy,
}

#[allow(inconsistent_fields)]
#[derive(Clone, Copy, Debug, PartialEq, Eq, Structural)]
pub enum DerivedRigids {
    Invalid,
    Single { parameter: DerivedParameter, binary_class: Option<ClassReference> },
    Pair {
        first: DerivedParameter,
        second: DerivedParameter,
        binary_class: Option<ClassReference>,
    },
}

impl DerivedRigids {
    /// The parameters, in order.
    pub open spec fn parameters(self) -> Seq<DerivedParameter> {
        match self {
            DerivedRigids::Invalid => Seq::empty(),
            DerivedRigids::Single { parameter, .. } => seq![parameter],
            DerivedRigids::Pair { first, second, .. } => seq![first, second],
        }
    }

    pub fn iter(&self) -> (parameters: Vec<DerivedParameter>)
        ensures
            parameters@ == self.parameters(),
    {
        let mut parameters: Vec<DerivedParameter> = Vec::new();
        match self {
            DerivedRigids::Invalid => {},
            DerivedRigids::Single { parameter, .. } => {
                parameters.push(*parameter);
            },
            DerivedRigids::Pair { first, second, .. } => {
                parameters.push(*first);
                parameters.push(*second);
            },
        }
        assert(parameters@ =~= self.parameters());
        parameters
    }

    /// The parameter of the name, the first one where there are several.
    pub open spec fn named(self, name: Name) -> Option<DerivedParameter> {
        let parameters = self.parameters();
        if parameters.len() > 0 && parameters[0].name == name {
            Some(parameters[0])
        } else if parameters.len() > 1 && parameters[1].name == name {
            Some(parameters[1])
        } else {
            None
        }
    }

    pub fn get(&self, name: Name) -> (parameter: Option<DerivedParameter>)
        ensures
            parameter == self.named(name),
    {
        let parameters = self.iter();
        let mut index: usize = 0;
        while index < parameters.len()
            invariant
                index <= parameters.len() <= 2,
                parameters@ == self.parameters(),
                forall|i: int| 0 <= i < index ==> parameters@[i].name != name,
            decreases parameters.len() - index,
        {
            if parameters[index].name == name {
                return Some(parameters[index]);
            }
            index += 1;
        }
        None
    }

    pub open spec fn binary(self) -> Option<ClassReference> {
        match self {
            DerivedRigids::Single { binary_class, .. } => binary_class,
            DerivedRigids::Pair { binary_class, .. } => binary_class,
            DerivedRigids::Invalid => None,
        }
    }

    pub fn binary_class(&self) -> (class: Option<ClassReference>)
        ensures
            class == self.binary(),
    {
        match self {
            DerivedRigids::Single { binary_class, .. } => *binary_class,
            DerivedRigids::Pair { binary_class, .. } => *binary_class,
            DerivedRigids::Invalid => None,
        }
    }

    /// There are parameters, and functions of all of them can be derived through.
    pub open spec fn mixed(self) -> bool {
        !(self is Invalid) && forall|i: int|
            0 <= i < self.parameters().len() ==> (
            #[trigger] self.parameters()[i]).function_policy is Allow
    }

    pub fn supports_contravariant_traversal(&self) -> (mixed: bool)
        ensures
            mixed == self.mixed(),
    {
        match self {
            DerivedRigids::Invalid => false,
            DerivedRigids::Single { parameter, .. } => {
                assert(self.parameters()[0] == *parameter);
                match parameter.function_policy {
                    FunctionPolicy::Allow => true,
                    FunctionPolicy::Reject => false,
                }
            },
            DerivedRigids::Pair { first, second, .. } => {
                assert(self.parameters()[0] == *first);
                assert(self.parameters()[1] == *second);
                match (first.function_policy, second.function_policy) {
                    (FunctionPolicy::Allow, FunctionPolicy::Allow) => true,
                    _ => false,
                }
            },
        }
    }
}

/// A parameter as it is configured.
pub open spec fn configured(
    config: ParameterConfig,
    name: Name,
    traversal_parameter: TraversalParameter,
) -> DerivedParameter {
    DerivedParameter {
        name,
        traversal_parameter,
        expected: config.variance,
        unary_class: config.unary_class,
        function_policy: config.function_policy,
    }
}

/// The parameters among the type variables that are left: the last one, or the
/// last two.
pub open spec fn selected_rigids(config: VarianceConfig, names: Seq<Name>) -> DerivedRigids {
    match config {
        VarianceConfig::Single { parameter, binary_class } => if names.len() >= 1 {
            DerivedRigids::Single {
                parameter: configured(parameter, names.last(), TraversalParameter::First),
                binary_class,
            }
        } else {
            DerivedRigids::Invalid
        },
        VarianceConfig::Pair { first, second, binary_class } => if names.len() >= 2 {
            DerivedRigids::Pair {
                first: configured(first, names[names.len() - 2], TraversalParameter::First),
                second: configured(second, names.last(), TraversalParameter::Second),
                binary_class,
            }
        } else {
            DerivedRigids::Invalid
        },
    }
}

fn configure(config: ParameterConfig, name: Name, traversal_parameter: TraversalParameter) -> (
parameter: DerivedParameter)
    ensures
        parameter == configured(config, name, traversal_parameter),
{
    DerivedParameter {
        name,
        traversal_parameter,
        expected: config.variance,
        unary_class: config.unary_class,
        function_policy: config.function_policy,
    }
}

pub fn select_rigids(config: VarianceConfig, names: &Vec<Name>) -> (rigids: DerivedRigids)
    ensures
        rigids == selected_rigids(config, names@),
{
    let count: usize = names.len();
    match config {
        VarianceConfig::Single { parameter, binary_class } => {
            if count >= 1 {
                DerivedRigids::Single {
                    parameter: configure(parameter, names[count - 1], TraversalParameter::First),
                    binary_class,
                }
            } else {
                DerivedRigids::Invalid
            }
        },
        VarianceConfig::Pair { first, second, binary_class } => {
            if count >= 2 {
                DerivedRigids::Pair {
                    first: configure(first, names[count - 2], TraversalParameter::First),
                    second: configure(second, names[count - 1], TraversalParameter::Second),
                    binary_class,
                }
            } else {
                DerivedRigids::Invalid
            }
        },
    }
}

/// What stands for a quantified variable of a constructor's type: the argument of
/// the derived type, or else a new type variable, whose name comes with it.
pub fn field_replacement(
    state: &mut CheckState,
    types: &mut Types,
    argument: Option<TypeId>,
    kind: TypeId,
) -> (replacement: (TypeId, Option<Name>))
    requires
        old(state).names.count() < u32::MAX,
        old(types)@.wf(),
    ensures
        final(types)@.wf(),
        extends(old(types)@, final(types)@),
        final(types)@ == (if argument is Some {
            old(types)@
        } else {
            old(types)@.with_type(Type::Rigid(next_name(*old(state)), old(state).depth, kind))
        }),
        match argument {
            Some(argument) => replacement == (argument, None::<Name>) && *final(state) == *old(
                state,
            ),
            None => {
                let name = next_name(*old(state));
                &&& replacement.1 == Some(name)
                &&& final(types)@.denotes(
                    replacement.0,
                    Type::Rigid(name, old(state).depth, kind),
                )
                &&& final(state).names.count() == old(state).names.count() + 1
                &&& *final(state) == (CheckState { names: final(state).names, ..*old(state) })
            },
        },
{
    match argument {
        Some(argument) => (argument, None),
        None => {
            let rigid = state.fresh_rigid(types, kind);
            match types.lookup_type(rigid) {
                Type::Rigid(name, _, _) => (rigid, Some(name)),
                _ => (rigid, None),
            }
        },
    }
}

// Instances

/// What an instance is for, up to arguments.
#[derive(Clone, Copy, Debug, PartialEq, Eq, Structural)]
pub enum HeadKind {
    Constructor(FileId, TypeItemId),
    Rigid(Name),
    Free(SmolStrId),
    Other,
}

#[derive(Clone, Copy, Debug, PartialEq, Eq, Structural)]
pub struct TypeHead {
    pub id: TypeId,
    pub kind: HeadKind,
}

/// An argument of a class.
#[derive(Clone, Copy, Debug, PartialEq, Eq, Structural)]
pub enum HeadArgument {
    Kind,
    Type(TypeHead),
}

/// An instance that is available: a constraint that is given, or one that another
/// declaration provides.
#[derive(Debug)]
pub struct InstanceHead {
    pub class: ClassReference,
    pub arguments: Vec<HeadArgument>,
}

/// The head of a type.
pub open spec fn head_of(field: FieldType) -> TypeHead {
    let head = field.head();
    TypeHead {
        id: head.identity(),
        kind: match head {
            FieldType::Constructor { file, item, .. } => HeadKind::Constructor(file, item),
            FieldType::Rigid { name, .. } => HeadKind::Rigid(name),
            FieldType::Free { name, .. } => HeadKind::Free(name),
            _ => HeadKind::Other,
        },
    }
}

pub fn find_head(field: &FieldType) -> (found: TypeHead)
    ensures
        found == head_of(*field),
{
    let head = field.type_head();
    let kind = match head {
        FieldType::Constructor { file, item, .. } => HeadKind::Constructor(*file, *item),
        FieldType::Rigid { name, .. } => HeadKind::Rigid(*name),
        FieldType::Free { name, .. } => HeadKind::Free(*name),
        _ => HeadKind::Other,
    };
    TypeHead { id: head.id(), kind }
}

/// Heads are the same where they are the same type, constructor or variable.
/// Generalisation can reconstruct a variable's kind while preserving its name.
pub open spec fn heads_equal(left: TypeHead, right: TypeHead) -> bool {
    left.id == right.id || (left.kind == right.kind && !(left.kind is Other))
}

pub fn type_heads_equal(left: TypeHead, right: TypeHead) -> (equal: bool)
    ensures
        equal == heads_equal(left, right),
{
    if left.id == right.id {
        return true;
    }
    match (left.kind, right.kind) {
        (
            HeadKind::Constructor(left_file, left_item),
            HeadKind::Constructor(right_file, right_item),
        ) => left_file == right_file && left_item == right_item,
        (HeadKind::Rigid(left_name), HeadKind::Rigid(right_name)) => left_name == right_name,
        (HeadKind::Free(left_name), HeadKind::Free(right_name)) => left_name == right_name,
        _ => false,
    }
}

/// The instance is one of the class for types of the head.
pub open spec fn instance_fits(
    instance: InstanceHead,
    class: ClassReference,
    argument: TypeHead,
) -> bool {
    &&& instance.class == class
    &&& instance.arguments@.len() == 1
    &&& instance.arguments@[0] matches HeadArgument::Type(head)
    &&& heads_equal(head, argument)
}

/// An instance of the class for the type's head is available. The head alone
/// decides: for `Foldable (p Int)` it is that of `p`.
pub open spec fn has_head(
    heads: Seq<InstanceHead>,
    class: ClassReference,
    argument: FieldType,
) -> bool {
    exists|i: int|
        0 <= i < heads.len() && instance_fits(#[trigger] heads[i], class, head_of(argument))
}

pub fn has_instance_head(
    heads: &Vec<InstanceHead>,
    class: ClassReference,
    argument: &FieldType,
) -> (available: bool)
    ensures
        available == has_head(heads@, class, *argument),
{
    let wanted = find_head(argument);
    let mut index: usize = 0;
    while index < heads.len()
        invariant
            index <= heads.len(),
            wanted == head_of(*argument),
            forall|i: int|
                0 <= i < index ==> !instance_fits(#[trigger] heads@[i], class, wanted),
        decreases heads.len() - index,
    {
        let instance = &heads[index];
        if instance.class == class && instance.arguments.len() == 1 {
            if let HeadArgument::Type(head) = instance.arguments[0] {
                if type_heads_equal(head, wanted) {
                    assert(instance_fits(heads@[index as int], class, wanted));
                    return true;
                }
            }
        }
        index += 1;
    }
    false
}

/// An instance of a known class for the type's head is available.
pub open spec fn has_known(
    heads: Seq<InstanceHead>,
    class: Option<ClassReference>,
    argument: FieldType,
) -> bool {
    class is Some && has_head(heads, class->0, argument)
}

// Findings

/// What is wrong with a type that an instance is derived for.
#[derive(Clone, Copy, Debug, PartialEq, Eq, Structural)]
pub enum VarianceIssue {
    CannotDeriveForType(TypeId),
    CovariantOccurrence(TypeId),
    ContravariantOccurrence(TypeId),
    DeriveMissingFunctor,
}

/// A constraint of a class on a type that a derived instance has.
#[derive(Clone, Copy, Debug, PartialEq, Eq, Structural)]
pub struct EmittedConstraint {
    pub class: ClassReference,
    pub argument: TypeId,
}

/// What has been found so far.
#[derive(Debug)]
pub struct VarianceFindings {
    pub valid: bool,
    pub issues: Vec<VarianceIssue>,
    pub constraints: Vec<EmittedConstraint>,
}

/// The model of [`VarianceFindings`].
#[verifier::ext_equal]
pub struct Findings {
    pub valid: bool,
    pub issues: Seq<VarianceIssue>,
    pub constraints: Seq<EmittedConstraint>,
}

impl View for VarianceFindings {
    type V = Findings;

    open spec fn view(&self) -> Findings {
        Findings { valid: self.valid, issues: self.issues@, constraints: self.constraints@ }
    }
}

impl Findings {
    /// A type cannot be derived through.
    pub open spec fn rejected(self, type_id: TypeId) -> Findings {
        Findings {
            valid: false,
            issues: self.issues.push(VarianceIssue::CannotDeriveForType(type_id)),
            ..self
        }
    }

    /// An occurrence was found, and reported where its variance is not the one
    /// expected.
    pub open spec fn reported(self, type_id: TypeId, actual: Variance, expected: Variance) -> Findings {
        if actual == expected {
            self
        } else {
            Findings {
                issues: self.issues.push(
                    match actual {
                        Variance::Covariant => VarianceIssue::CovariantOccurrence(type_id),
                        Variance::Contravariant => VarianceIssue::ContravariantOccurrence(type_id),
                    },
                ),
                ..self
            }
        }
    }

    /// The findings are valid only if they were and this holds.
    pub open spec fn restricted(self, valid: bool) -> Findings {
        Findings { valid: self.valid && valid, ..self }
    }

    /// An occurrence was found; the findings are valid only if its variance is the
    /// one expected.
    pub open spec fn noted(self, type_id: TypeId, actual: Variance, expected: Variance) -> Findings {
        self.reported(type_id, actual, expected).restricted(actual == expected)
    }

    pub open spec fn emitted(self, class: ClassReference, argument: TypeId) -> Findings {
        Findings { constraints: self.constraints.push(EmittedConstraint { class, argument }), ..self }
    }

    /// The constraint was emitted, where the findings are valid and this holds.
    pub open spec fn emitted_if(
        self,
        condition: bool,
        class: ClassReference,
        argument: TypeId,
    ) -> Findings {
        if self.valid && condition {
            self.emitted(class, argument)
        } else {
            self
        }
    }

    /// The parameter's own class was required of the function.
    pub open spec fn emitted_unary(self, parameter: DerivedParameter, function: TypeId) -> Findings {
        match parameter.unary_class {
            Some(class) => self.emitted(class, function),
            None => Findings {
                valid: false,
                issues: self.issues.push(VarianceIssue::DeriveMissingFunctor),
                ..self
            },
        }
    }
}

impl VarianceFindings {
    pub fn new() -> (findings: VarianceFindings)
        ensures
            findings@ == (Findings { valid: true, issues: Seq::empty(), constraints: Seq::empty() }),
    {
        VarianceFindings { valid: true, issues: Vec::new(), constraints: Vec::new() }
    }

    pub fn reject(&mut self, type_id: TypeId)
        ensures
            final(self)@ == old(self)@.rejected(type_id),
    {
        self.issues.push(VarianceIssue::CannotDeriveForType(type_id));
        self.valid = false;
    }

    /// Reports an occurrence whose variance is not the one expected. Says whether it
    /// is.
    pub fn emit_variance_error(&mut self, type_id: TypeId, actual: Variance, expected: Variance) -> (
    valid: bool)
        ensures
            valid == (actual == expected),
            final(self)@ == old(self)@.reported(type_id, actual, expected),
    {
        if actual == expected {
            return true;
        }
        match actual {
            Variance::Covariant => {
                self.issues.push(VarianceIssue::CovariantOccurrence(type_id));
            },
            Variance::Contravariant => {
                self.issues.push(VarianceIssue::ContravariantOccurrence(type_id));
            },
        }
        false
    }

    pub fn note(&mut self, type_id: TypeId, actual: Variance, expected: Variance)
        ensures
            final(self)@ == old(self)@.noted(type_id, actual, expected),
    {
        let valid = self.emit_variance_error(type_id, actual, expected);
        self.valid = self.valid && valid;
    }

    pub fn emit_constraint(&mut self, class: ClassReference, argument: TypeId)
        ensures
            final(self)@ == old(self)@.emitted(class, argument),
    {
        self.constraints.push(EmittedConstraint { class, argument });
    }

    pub fn emit_constraint_if(&mut self, condition: bool, class: ClassReference, argument: TypeId)
        ensures
            final(self)@ == old(self)@.emitted_if(condition, class, argument),
    {
        if self.valid && condition {
            self.emit_constraint(class, argument);
        }
    }

    pub fn emit_unary_constraint(&mut self, parameter: DerivedParameter, function: TypeId)
        ensures
            final(self)@ == old(self)@.emitted_unary(parameter, function),
    {
        match parameter.unary_class {
            Some(class) => self.emit_constraint(class, function),
            None => {
                self.issues.push(VarianceIssue::DeriveMissingFunctor);
                self.valid = false;
            },
        }
    }
}

/// The error for an issue.
pub open spec fn issue_error(issue: VarianceIssue) -> ErrorKind {
    match issue {
        VarianceIssue::CannotDeriveForType(type_id) => ErrorKind::CannotDeriveForType { type_id },
        VarianceIssue::CovariantOccurrence(type_id) => ErrorKind::CovariantOccurrence { type_id },
        VarianceIssue::ContravariantOccurrence(type_id) => ErrorKind::ContravariantOccurrence {
            type_id,
        },
        VarianceIssue::DeriveMissingFunctor => ErrorKind::DeriveMissingFunctor,
    }
}

/// Reports the issues, in order.
pub fn report_issues(state: &mut CheckState, issues: &Vec<VarianceIssue>)
    ensures
        *final(state) == (CheckState {
            checked: CheckedModule { errors: final(state).checked.errors, ..old(state).checked },
            ..*old(state)
        }),
        ({
            let before = old(state).checked.errors@;
            let after = final(state).checked.errors@;
            &&& after.len() == before.len() + issues@.len()
            &&& after.take(before.len() as int) == before
            &&& forall|i: int|
                0 <= i < issues@.len() ==> (#[trigger] after[before.len() + i]).kind == issue_error(
                    issues@[i],
                ) && after[before.len() + i].crumbs@ == old(state).crumbs@
        }),
{
    let ghost before = state.checked.errors@;
    let mut index: usize = 0;
    assert(before.take(before.len() as int) =~= before);
    while index < issues.len()
        invariant
            index <= issues.len(),
            before == old(state).checked.errors@,
            *state == (CheckState {
                checked: CheckedModule { errors: state.checked.errors, ..old(state).checked },
                ..*old(state)
            }),
            state.checked.errors@.len() == before.len() + index,
            state.checked.errors@.take(before.len() as int) == before,
            forall|i: int|
                0 <= i < index ==> (#[trigger] state.checked.errors@[before.len() + i]).kind
                    == issue_error(issues@[i]) && state.checked.errors@[before.len() + i].crumbs@
                    == old(state).crumbs@,
        decreases issues.len() - index,
    {
        let ghost known = state.checked.errors@;
        let kind = match issues[index] {
            VarianceIssue::CannotDeriveForType(type_id) => ErrorKind::CannotDeriveForType {
                type_id,
            },
            VarianceIssue::CovariantOccurrence(type_id) => ErrorKind::CovariantOccurrence {
                type_id,
            },
            VarianceIssue::ContravariantOccurrence(type_id) => ErrorKind::ContravariantOccurrence {
                type_id,
            },
            VarianceIssue::DeriveMissingFunctor => ErrorKind::DeriveMissingFunctor,
        };
        state.insert_error(kind);
        proof {
            let now = state.checked.errors@;
            assert forall|i: int| 0 <= i < known.len() implies now[i] == known[i] by {
                assert(now.drop_last()[i] == known[i]);
            }
            assert(now.take(before.len() as int) =~= known.take(before.len() as int));
        }
        index += 1;
    }
}

} // verus!
