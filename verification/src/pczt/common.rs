//! What concerns a partially created transaction as a whole.

use std::collections::BTreeMap;

use vstd::prelude::*;

use crate::consensus::branch_of_code;
use crate::consensus::is_branch_code;
use crate::consensus::BranchId;
use crate::consensus::V6_TX_VERSION;
use crate::pool::bundle_version_under;
use crate::pool::orchard_protocol_for_branch;
use crate::pool::BundleVersion;


verus! {

/// Set where transparent inputs may be added or removed.
pub const FLAG_TRANSPARENT_INPUTS_MODIFIABLE: u8 = 0b0000_0001;

/// Set where transparent outputs may be added or removed.
pub const FLAG_TRANSPARENT_OUTPUTS_MODIFIABLE: u8 = 0b0000_0010;

/// Set where some transparent input is signed with `SIGHASH_SINGLE`.
pub const FLAG_HAS_SIGHASH_SINGLE: u8 = 0b0000_0100;

/// Set where shielded spends and outputs may be added or removed.
pub const FLAG_SHIELDED_MODIFIABLE: u8 = 0b1000_0000;

/// What concerns a partially created transaction as a whole.
pub struct Global {
    /// The version of the transaction format.
    pub tx_version: u32,
    /// The group that the version belongs to.
    pub version_group_id: u32,
    /// The branch by whose rules the transaction is made.
    pub consensus_branch_id: u32,
    /// The lock time, where no input requires another.
    pub fallback_lock_time: Option<u32>,
    /// The height after which the transaction is no longer valid.
    pub expiry_height: u32,
    /// The coin type of the network.
    pub coin_type: u32,
    /// What may still be changed.
    pub tx_modifiable: u8,
    /// What others have added for their own purposes.
    pub proprietary: BTreeMap<String, Vec<u8>>,
}

/// Why a transaction cannot have an Ironwood bundle.
#[derive(Clone, Copy, Debug, PartialEq, Eq, Structural)]
pub enum VersionError {
    /// The transaction is of this version, not of version 6.
    TxVersion(u32),
    /// The transaction is made by the rules of this branch, not by those of NU6.3.
    ConsensusBranch(u32),
}

impl Global {
    /// Why the transaction is not one of version 6 on NU6.3.
    pub open spec fn v6_error(self) -> Option<VersionError> {
        if self.tx_version != V6_TX_VERSION {
            Some(VersionError::TxVersion(self.tx_version))
        } else if self.consensus_branch_id != BranchId::Nu6_3.code() {
            Some(VersionError::ConsensusBranch(self.consensus_branch_id))
        } else {
            None
        }
    }

    /// The version that the Orchard bundle is written in.
    pub open spec fn orchard_version(self) -> BundleVersion {
        bundle_version_under(branch_of_code(self.consensus_branch_id))
    }
}

/// Checks that a transaction is one of version 6 on NU6.3.
pub fn ensure_v6_consensus_branch(global: &Global) -> (r: Result<(), VersionError>)
    ensures
        match global.v6_error() {
            Some(e) => r matches Err(f) && f == e,
            None => r is Ok,
        },
{
    if global.tx_version != V6_TX_VERSION {
        Err(VersionError::TxVersion(global.tx_version))
    } else if global.consensus_branch_id != BranchId::Nu6_3.to_u32() {
        Err(VersionError::ConsensusBranch(global.consensus_branch_id))
    } else {
        Ok(())
    }
}

/// The version that the Orchard bundle of a transaction is written in.
pub fn orchard_bundle_format(global: &Global) -> (r: BundleVersion)
    requires
        is_branch_code(global.consensus_branch_id),
    ensures
        r == global.orchard_version(),
{
    match BranchId::from_u32(global.consensus_branch_id) {
        Some(branch) => {
            assert(branch.code() == global.consensus_branch_id);
            assert(branch_of_code(global.consensus_branch_id).code() == global.consensus_branch_id);
            orchard_protocol_for_branch(branch)
        },
        None => {
            assert(false);
            BundleVersion::OrchardInsecureV1
        },
    }
}

} // verus!
