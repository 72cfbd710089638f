//! A wallet that is held in memory, and the records that it is stored as.

pub mod laws;
pub mod notes;
pub mod proto;
pub mod record;
pub mod sanitize;
pub mod serialization;
pub mod table;
pub mod tree;
pub mod types;
pub mod values;

