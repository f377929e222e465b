//! Elaboration of terms.

pub mod application;
pub mod binary;
pub mod block_laws;
pub mod blocks;
pub mod equations;
pub mod form_ado;
pub mod form_do;
pub mod form_steps;
pub mod forms;
pub mod guarded;

