//! Derived instances.

pub mod checker;
pub mod contravariant;
pub mod field;
pub mod fold_laws;
pub mod foldable;
pub mod generate;
pub mod generic;
pub mod generic_laws;
pub mod mapped;
pub mod plan;
pub mod recipe;
pub mod replay;
pub mod shapes;
pub mod traversable;
pub mod traversal_laws;
pub mod variance;
