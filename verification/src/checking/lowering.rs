//! The parts of the lowered syntax that checking reads.

use super::types::FileId;
use crate::indexing::items::TermItemId;
use vstd::prelude::*;

verus! {

/// The stable identity of a node of the lowered syntax.
#[derive(Clone, Copy, Debug, PartialEq, Eq, Structural, Hash)]
pub struct SourceId {
    pub raw: u32,
}

pub type SourceExpressionId = SourceId;

pub type SourceBinderId = SourceId;

pub type SourceTypeId = SourceId;

pub type DoStatementId = SourceId;

pub type TermOperatorId = SourceId;

pub type RecordPunId = SourceId;

pub type LetBindingId = SourceId;

pub type LetBindingNameGroupId = SourceId;

pub type LetBindingEquationId = SourceId;

pub type TypeVariableBindingId = SourceId;

pub type GraphNodeId = SourceId;

pub type ImplicitBindingId = SourceId;

/// What a variable stands for.
#[derive(Clone, Copy, Debug, PartialEq, Eq, Structural)]
pub enum TermVariableResolution {
    Binder(SourceBinderId),
    Let(LetBindingNameGroupId),
    RecordPun(RecordPunId),
    Reference(FileId, TermItemId),
}

/// A string in the forms in which it can be written.
#[derive(Debug)]
pub struct StringLiteral {
    /// The literal with escapes and quotes.
    pub normal: String,
    /// The characters, where all of them can stand in a raw literal.
    pub raw: Option<String>,
}

#[derive(Clone, Copy, Debug, PartialEq, Eq, Structural)]
pub enum StringKind {
    String,
    RawString,
}

/// Declarations that depend on each other.
#[derive(Debug)]
pub struct Scc {
    pub items: Vec<SourceId>,
    pub recursive: bool,
}

} // verus!
