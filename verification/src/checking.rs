//! Type checking and elaboration.

pub mod derive;
pub mod error;
pub mod evidence;
pub mod groups;
pub mod item_laws;
pub mod lowering;
pub mod operator;
pub mod operator_laws;
pub mod operator_steps;
pub mod order;
pub mod order_laws;
pub mod pretty;
pub mod state;
pub mod term_items;
pub mod term_steps;
pub mod terms;
pub mod tree;
pub mod type_items;
pub mod type_steps;
pub mod types;

