//! Implements the pretty printer for the checked semantic tree.

pub mod declaration_laws;
pub mod declarations;
pub mod evidence;
pub mod expressions;
pub mod laws;
pub mod layout;
pub mod module;
pub mod names;
pub mod patterns;
pub mod printer;
pub mod requests;
pub mod text_laws;
pub mod written;
