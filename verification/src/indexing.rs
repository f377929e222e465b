//! Collects the items that a module declares, imports and exports.


pub mod algorithm;
pub mod declaration_laws;
pub mod error;
pub mod export_laws;
pub mod exports;
pub mod import_laws;
pub mod imports;
pub mod items;
pub mod laws;
pub mod lookups;
pub mod marking;
pub mod model;
pub mod module;
pub mod names;
pub mod pairs;
pub mod source;
pub mod stabilized;

