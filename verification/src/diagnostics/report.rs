//! Reports on the problems found in a module.

use vstd::prelude::*;

verus! {

#[derive(Clone, Copy, Debug, PartialEq, Eq, Structural)]
pub enum Severity {
    Error,
    Warning,
}

/// A range of byte offsets.
#[derive(Clone, Copy, Debug, PartialEq, Eq, Structural)]
pub struct Span {
    pub start: u32,
    pub end: u32,
}

/// Another place that a report points at.
pub struct RelatedSpan {
    pub span: Span,
    pub message: String,
}

/// A report on one problem.
pub struct Diagnostic {
    pub code: String,
    pub severity: Severity,
    pub message: String,
    pub span: Span,
    pub related: Vec<RelatedSpan>,
    /// What was being done when the problem was found.
    pub trivia: Vec<String>,
    /// The pass that found the problem.
    pub source: String,
}

} // verus!
