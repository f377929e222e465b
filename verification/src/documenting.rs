//! Documentation of modules and their items.

pub mod annotation;
pub mod laws;
pub mod module;
pub mod syntax;

