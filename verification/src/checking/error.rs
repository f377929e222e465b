//! What can be wrong with a module's types.

use super::lowering::{DoStatementId, SourceExpressionId, SourceTypeId};
use super::types::{FileId, TypeId};
use crate::indexing::items::{DeriveItemId, InstanceItemId, TermItemId, TypeItemId};
use vstd::prelude::*;

verus! {

/// The identity of a pattern.
#[derive(Clone, Copy, Debug, PartialEq, Eq, Structural, Hash)]
pub struct PatternId {
    pub raw: usize,
}

#[allow(inconsistent_fields)]
#[derive(Debug)]
pub enum ErrorKind {
    AmbiguousConstraint { constraint: TypeId },
    CannotDeriveForType { type_id: TypeId },
    CannotGeneraliseRecursiveFunction { type_id: TypeId },
    ContravariantOccurrence { type_id: TypeId },
    CovariantOccurrence { type_id: TypeId },
    DeriveMissingFunctor,
    EmptyAdoBlock,
    EmptyDoBlock,
    InstanceHeadMismatch {
        class_file: FileId,
        class_item: TypeItemId,
        expected: usize,
        actual: usize,
    },
    InstanceMemberTypeMismatch { expected: TypeId, actual: TypeId },
    InvalidFinalBind,
    InvalidFinalLet,
    MissingInstanceMembers { members: Vec<String> },
    NoInstanceFound { given: Vec<TypeId>, constraint: TypeId },
    NoVisibleTypeVariable { function_type: TypeId },
    RedundantPatterns { patterns: Vec<PatternId> },
    TooManyBinders { signature: Option<SourceTypeId>, expected: u32, actual: u32 },
}

/// A step on the way to the place of an error.
#[derive(Clone, Copy, Debug, PartialEq, Eq, Structural)]
pub enum ErrorCrumb {
    CheckingAdoLet(DoStatementId),
    CheckingDoLet(DoStatementId),
    ConstructorArgument(SourceTypeId),
    DeriveDeclaration(DeriveItemId),
    InferringAdoApply(DoStatementId),
    InferringAdoMap(DoStatementId),
    InferringDoBind(DoStatementId),
    InferringDoDiscard(DoStatementId),
    InferringExpression(SourceExpressionId),
    InstanceDeclaration(InstanceItemId),
    TermDeclaration(TermItemId),
}

/// An error with the way to its place, from the outside inwards.
#[derive(Debug)]
pub struct CheckingError {
    pub kind: ErrorKind,
    pub crumbs: Vec<ErrorCrumb>,
}

} // verus!
