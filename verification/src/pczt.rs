//! Partially created transactions, and the roles that take part in completing them.

use vstd::prelude::*;

use self::common::Global;

pub mod common;
pub mod creator;
pub mod laws;
pub mod low_level_signer;
pub mod orchard;
pub mod orchard_verifier;
pub mod prover;
pub mod sapling;
pub mod transparent;
pub mod tx_extractor;

verus! {

/// A partially created transaction.
pub struct Pczt {
    /// What concerns the transaction as a whole.
    pub global: Global,
    /// The transparent bundle.
    pub transparent: transparent::TransparentPcztBundle,
    /// The Sapling bundle.
    pub sapling: sapling::SaplingPcztBundle,
    /// The Orchard bundle.
    pub orchard: orchard::PcztBundle,
    /// The Ironwood bundle.
    pub ironwood: orchard::PcztBundle,
}

} // verus!
