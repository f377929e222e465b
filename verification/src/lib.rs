//! The semantic core of a PureScript compiler frontend.

pub mod checking;
pub mod collections;
pub mod diagnostics;
pub mod documenting;
pub mod indexing;
pub mod text;

