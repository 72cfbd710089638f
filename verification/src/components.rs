//! The parts of a transaction that belong to the Orchard-shaped pools, in their wire format.

pub mod builder;
pub mod encoding;
pub mod laws;
pub mod layout;
pub mod orchard;
