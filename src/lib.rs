//! Audio tag indexing: deciding which files are audio, turning extracted
//! metadata into table rows, and reconciling those rows into a path-keyed table.
pub mod classify;
pub mod record;
pub mod table;
pub mod order;
pub mod store;
pub mod reconcile;
pub mod laws;
