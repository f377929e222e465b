//! What can be wrong with the items of a module.

use super::items::{TermItemId, TypeItemId};
use super::source::{
    ExportItemId, ImportItemId, TypeEquationId, TypeRoleId, TypeSignatureId, ValueEquationId,
    ValueSignatureId,
};
use vstd::prelude::*;

verus! {

/// The declaration that an error is about.
#[derive(Clone, Copy, Debug, PartialEq, Eq, Structural)]
pub enum ItemKind {
    ValueSignature(ValueSignatureId),
    ValueEquation(ValueEquationId),
    SynonymSignature(TypeSignatureId),
    SynonymEquation(TypeEquationId),
    ClassSignature(TypeSignatureId),
    ClassDeclaration(TypeEquationId),
    NewtypeSignature(TypeSignatureId),
    NewtypeEquation(TypeEquationId),
    DataSignature(TypeSignatureId),
    DataEquation(TypeEquationId),
    Term(TermItemId),
    Type(TypeItemId),
}

/// The earlier item that a declaration is in conflict with.
#[derive(Clone, Copy, Debug, PartialEq, Eq, Structural)]
pub enum ExistingKind {
    Term(TermItemId),
    Type(TypeItemId),
}

#[allow(inconsistent_fields)]
#[derive(Clone, Copy, Debug, PartialEq, Eq, Structural)]
pub enum IndexingError {
    DuplicateItem { kind: ItemKind, existing: ExistingKind },
    MismatchedItem { kind: ItemKind, existing: ExistingKind },
    InvalidRole { id: TypeRoleId, existing: Option<TypeItemId> },
    DuplicateImport { duplicate: ImportItemId, existing: ImportItemId },
    DuplicateExport { id: ExportItemId, existing: ExportItemId },
    InvalidExport { id: ExportItemId },
}

} // verus!
