//! A verified library for Orchard-shaped value pools: the Orchard pool and the Ironwood pool
//! that NU6.3 introduces beside it.

pub mod components;
pub mod consensus;
pub mod fees;
pub mod field;
pub mod memwallet;
pub mod migrations;
pub mod pczt;
pub mod pool;
pub mod scanning;
pub mod text;
pub mod value;

