//! Problems found in a module, and how they are shown.

pub mod content_laws;
pub mod escapes;
pub mod laws;
pub mod lines;
pub mod lsp;
pub mod render;
pub mod report;
pub mod width;

