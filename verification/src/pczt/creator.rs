//! The Creator role: it makes the transaction that all others add to.

use std::collections::BTreeMap;

use vstd::prelude::*;

use crate::consensus::branch_of_code;
use crate::consensus::is_branch_code;
use crate::consensus::BlockHeight;
use crate::consensus::BranchId;
use crate::consensus::Params;
use crate::consensus::TxVersion;
use crate::consensus::V4_TX_VERSION;
use crate::consensus::V4_VERSION_GROUP_ID;
use crate::consensus::V5_TX_VERSION;
use crate::consensus::V5_VERSION_GROUP_ID;
use crate::consensus::V6_TX_VERSION;
use crate::consensus::V6_VERSION_GROUP_ID;
use crate::field::pallas_base_canonical;
use crate::pool::bundle_version_under;
use crate::pool::orchard_protocol_for_branch;
use crate::pool::BundleVersion;
use crate::pool::Flags;
use crate::pool::NoteVersion;

use super::common::Global;
use super::common::FLAG_HAS_SIGHASH_SINGLE;
use super::common::FLAG_SHIELDED_MODIFIABLE;
use super::common::FLAG_TRANSPARENT_INPUTS_MODIFIABLE;
use super::common::FLAG_TRANSPARENT_OUTPUTS_MODIFIABLE;
use super::orchard::empty_bundle;
use super::orchard::empty_bundle_view;
use super::orchard::empty_ironwood_bundle;
use super::orchard::empty_tree_anchor;
use super::orchard::lemma_serialize_then_parse;
use super::orchard::orchard_empty_root;
use super::orchard::ParsedBundle;
use super::orchard::PcztBundle;
use super::orchard::IRONWOOD_SPENDS_AND_OUTPUTS_ENABLED;
use super::orchard::TREE_DEPTH;
use super::sapling::empty_sapling_bundle;
use super::sapling::empty_sapling_root;
use super::sapling::empty_sapling_view;
use super::sapling::sapling_empty_root;
use super::sapling::SaplingPcztBundle;
use super::transparent::empty_transparent_bundle;
use super::transparent::empty_transparent_view;
use super::transparent::TransparentPcztBundle;
use super::Pczt;

verus! {

/// Everything may be modified at first.
pub const INITIAL_TX_MODIFIABLE: u8 = FLAG_TRANSPARENT_INPUTS_MODIFIABLE
    + FLAG_TRANSPARENT_OUTPUTS_MODIFIABLE + FLAG_SHIELDED_MODIFIABLE;

/// The byte of the Orchard flags before NU6.3: spends and outputs are enabled.
pub const LEGACY_ORCHARD_SPENDS_AND_OUTPUTS_ENABLED: u8 = 0b0000_0011;

/// The byte of the Orchard flags from NU6.3 on: spends and outputs are enabled, and no action may
/// send to another receiver than that of the note it spends.
pub const NU6_3_ORCHARD_CROSS_ADDRESS_DISABLED: u8 = 0b0000_0011;

/// Makes transactions of version 5.
pub struct Creator {
    tx_version: u32,
    version_group_id: u32,
    consensus_branch_id: u32,
    fallback_lock_time: Option<u32>,
    expiry_height: u32,
    coin_type: u32,
    orchard_flags: u8,
    sapling_anchor: [u8; 32],
    orchard_anchor: [u8; 32],
}

/// Makes transactions of version 6.
pub struct V6Creator {
    consensus_branch_id: u32,
    fallback_lock_time: Option<u32>,
    expiry_height: u32,
    coin_type: u32,
    sapling_anchor: [u8; 32],
    orchard_anchor: [u8; 32],
    orchard_flags: u8,
    ironwood_flags: u8,
    ironwood_anchor: [u8; 32],
}

/// What a creator has been told.
pub struct CreatorView {
    pub tx_version: u32,
    pub version_group_id: u32,
    pub consensus_branch_id: u32,
    pub fallback_lock_time: Option<u32>,
    pub expiry_height: u32,
    pub coin_type: u32,
    pub sapling_anchor: [u8; 32],
    pub orchard_anchor: [u8; 32],
    pub orchard_flags: u8,
    pub ironwood_flags: u8,
    pub ironwood_anchor: [u8; 32],
}

impl View for Creator {
    type V = CreatorView;

    closed spec fn view(&self) -> CreatorView {
        CreatorView {
            tx_version: self.tx_version,
            version_group_id: self.version_group_id,
            consensus_branch_id: self.consensus_branch_id,
            fallback_lock_time: self.fallback_lock_time,
            expiry_height: self.expiry_height,
            coin_type: self.coin_type,
            sapling_anchor: self.sapling_anchor,
            orchard_anchor: self.orchard_anchor,
            orchard_flags: self.orchard_flags,
            ironwood_flags: IRONWOOD_SPENDS_AND_OUTPUTS_ENABLED,
            ironwood_anchor: orchard_empty_root(TREE_DEPTH),
        }
    }
}

impl View for V6Creator {
    type V = CreatorView;

    closed spec fn view(&self) -> CreatorView {
        CreatorView {
            tx_version: V6_TX_VERSION,
            version_group_id: V6_VERSION_GROUP_ID,
            consensus_branch_id: self.consensus_branch_id,
            fallback_lock_time: self.fallback_lock_time,
            expiry_height: self.expiry_height,
            coin_type: self.coin_type,
            sapling_anchor: self.sapling_anchor,
            orchard_anchor: self.orchard_anchor,
            orchard_flags: self.orchard_flags,
            ironwood_flags: self.ironwood_flags,
            ironwood_anchor: self.ironwood_anchor,
        }
    }
}

impl CreatorView {
    /// Whether a transaction is the one that the creator makes: nothing is in it yet, and
    /// everything may be modified.
    pub open spec fn makes(self, pczt: Pczt) -> bool {
        &&& pczt.global.tx_version == self.tx_version
        &&& pczt.global.version_group_id == self.version_group_id
        &&& pczt.global.consensus_branch_id == self.consensus_branch_id
        &&& pczt.global.fallback_lock_time == self.fallback_lock_time
        &&& pczt.global.expiry_height == self.expiry_height
        &&& pczt.global.coin_type == self.coin_type
        &&& pczt.global.tx_modifiable == INITIAL_TX_MODIFIABLE
        &&& pczt.global.proprietary@ == Map::<String, Vec<u8>>::empty()
        &&& pczt.transparent@ == empty_transparent_view()
        &&& pczt.sapling@ == empty_sapling_view(self.sapling_anchor)
        &&& pczt.orchard@ == empty_bundle_view(self.orchard_flags, self.orchard_anchor)
        &&& pczt.ironwood@ == empty_bundle_view(self.ironwood_flags, self.ironwood_anchor)
    }
}

/// What a transaction builder hands over.
pub struct PcztParts {
    pub params: Params,
    pub version: TxVersion,
    pub consensus_branch_id: BranchId,
    pub lock_time: u32,
    pub expiry_height: BlockHeight,
    pub transparent: Option<TransparentPcztBundle>,
    pub sapling: Option<SaplingPcztBundle>,
    pub orchard: Option<ParsedBundle>,
    pub ironwood: Option<ParsedBundle>,
}

/// The number of a transaction version that a partially created transaction can have, and the
/// group that it belongs to.
pub open spec fn version_numbers(version: TxVersion) -> Option<(u32, u32)> {
    match version {
        TxVersion::Sprout(_) | TxVersion::V3 => None,
        TxVersion::V4 => Some((V4_TX_VERSION, V4_VERSION_GROUP_ID)),
        TxVersion::V5 => Some((V5_TX_VERSION, V5_VERSION_GROUP_ID)),
        TxVersion::V6 => Some((V6_TX_VERSION, V6_VERSION_GROUP_ID)),
    }
}

impl PcztParts {
    /// The version that the Orchard bundle is written in.
    pub open spec fn orchard_version(self) -> BundleVersion {
        bundle_version_under(self.consensus_branch_id)
    }

    /// Whether the parts make up a transaction: the version fits the branch, an Ironwood bundle is
    /// there only in version 6, the flags of the Orchard bundle can be written down, and the notes
    /// are of the versions that belong to their pools.
    pub open spec fn acceptable(self) -> bool {
        &&& version_numbers(self.version) is Some
        &&& self.version.accepted_in(self.consensus_branch_id)
        &&& self.ironwood is Some ==> self.version is V6
        &&& self.orchard matches Some(bundle) ==> {
            &&& bundle.flags.representable(self.orchard_version())
            &&& bundle@.notes_of(NoteVersion::V2)
        }
        &&& self.ironwood matches Some(bundle) ==> bundle@.notes_of(NoteVersion::V3)
    }

    /// Whether a transaction is made up of the parts.
    pub open spec fn makes(self, pczt: Pczt) -> bool {
        &&& Some((pczt.global.tx_version, pczt.global.version_group_id)) == version_numbers(
            self.version,
        )
        &&& pczt.global.consensus_branch_id == self.consensus_branch_id.code()
        &&& pczt.global.fallback_lock_time == Some(self.lock_time)
        &&& pczt.global.expiry_height == self.expiry_height
        &&& pczt.global.coin_type == self.params.network.registered_coin_type()
        &&& pczt.global.tx_modifiable == (if self.transparent is Some
            && self.transparent->0@.has_sighash_single() {
            FLAG_HAS_SIGHASH_SINGLE
        } else {
            0
        })
        &&& pczt.global.proprietary@ == Map::<String, Vec<u8>>::empty()
        &&& match self.transparent {
            Some(bundle) => pczt.transparent == bundle,
            None => pczt.transparent@ == empty_transparent_view(),
        }
        &&& match self.sapling {
            Some(bundle) => pczt.sapling == bundle,
            None => pczt.sapling@ == empty_sapling_view(sapling_empty_root(TREE_DEPTH)),
        }
        &&& match self.orchard {
            Some(bundle) => pczt.orchard == bundle.serialized(self.orchard_version()),
            None => pczt.orchard@ == empty_bundle_view(
                if self.orchard_version() is OrchardV3 {
                    NU6_3_ORCHARD_CROSS_ADDRESS_DISABLED
                } else {
                    LEGACY_ORCHARD_SPENDS_AND_OUTPUTS_ENABLED
                },
                orchard_empty_root(TREE_DEPTH),
            ),
        }
        &&& match self.ironwood {
            Some(bundle) => pczt.ironwood == bundle.serialized(BundleVersion::IronwoodV3),
            None => pczt.ironwood@ == empty_bundle_view(
                IRONWOOD_SPENDS_AND_OUTPUTS_ENABLED,
                orchard_empty_root(TREE_DEPTH),
            ),
        }
    }
}

impl Creator {
    /// Makes a transaction of version 5.
    pub fn new(
        consensus_branch_id: u32,
        expiry_height: u32,
        coin_type: u32,
        sapling_anchor: [u8; 32],
        orchard_anchor: [u8; 32],
    ) -> (r: Creator)
        ensures
            r@ == (CreatorView {
                tx_version: V5_TX_VERSION,
                version_group_id: V5_VERSION_GROUP_ID,
                consensus_branch_id,
                fallback_lock_time: None,
                expiry_height,
                coin_type,
                sapling_anchor,
                orchard_anchor,
                orchard_flags: LEGACY_ORCHARD_SPENDS_AND_OUTPUTS_ENABLED,
                ironwood_flags: IRONWOOD_SPENDS_AND_OUTPUTS_ENABLED,
                ironwood_anchor: orchard_empty_root(TREE_DEPTH),
            }),
    {
        Creator {
            tx_version: V5_TX_VERSION,
            version_group_id: V5_VERSION_GROUP_ID,
            consensus_branch_id,
            fallback_lock_time: None,
            expiry_height,
            coin_type,
            orchard_flags: LEGACY_ORCHARD_SPENDS_AND_OUTPUTS_ENABLED,
            sapling_anchor,
            orchard_anchor,
        }
    }

    /// Makes a transaction of version 6, which can have an Ironwood bundle.
    pub fn new_v6(
        consensus_branch_id: u32,
        expiry_height: u32,
        coin_type: u32,
        sapling_anchor: [u8; 32],
        orchard_anchor: [u8; 32],
        ironwood_anchor: [u8; 32],
    ) -> (r: V6Creator)
        ensures
            r@ == (CreatorView {
                tx_version: V6_TX_VERSION,
                version_group_id: V6_VERSION_GROUP_ID,
                consensus_branch_id,
                fallback_lock_time: None,
                expiry_height,
                coin_type,
                sapling_anchor,
                orchard_anchor,
                orchard_flags: NU6_3_ORCHARD_CROSS_ADDRESS_DISABLED,
                ironwood_flags: IRONWOOD_SPENDS_AND_OUTPUTS_ENABLED,
                ironwood_anchor,
            }),
    {
        V6Creator {
            consensus_branch_id,
            fallback_lock_time: None,
            expiry_height,
            coin_type,
            sapling_anchor,
            orchard_anchor,
            orchard_flags: NU6_3_ORCHARD_CROSS_ADDRESS_DISABLED,
            ironwood_flags: IRONWOOD_SPENDS_AND_OUTPUTS_ENABLED,
            ironwood_anchor,
        }
    }

    /// Sets the lock time for the case that no input requires another.
    pub fn with_fallback_lock_time(self, fallback: u32) -> (r: Creator)
        ensures
            r@ == (CreatorView { fallback_lock_time: Some(fallback), ..self@ }),
    {
        Creator { fallback_lock_time: Some(fallback), ..self }
    }

    /// Sets the Orchard flags.
    pub fn with_orchard_flags(self, orchard_flags: Flags) -> (r: Creator)
        requires
            is_branch_code(self@.consensus_branch_id),
            orchard_flags.representable(
                bundle_version_under(branch_of_code(self@.consensus_branch_id)),
            ),
        ensures
            r@ == (CreatorView {
                orchard_flags: orchard_flags.byte(
                    bundle_version_under(branch_of_code(self@.consensus_branch_id)),
                ),
                ..self@
            }),
    {
        let branch = match BranchId::from_u32(self.consensus_branch_id) {
            Some(branch) => branch,
            None => {
                assert(false);
                BranchId::Sprout
            },
        };
        assert(branch.code() == self.consensus_branch_id);
        assert(branch_of_code(self.consensus_branch_id).code() == self.consensus_branch_id);
        let byte: u8 = match orchard_flags.to_byte(orchard_protocol_for_branch(branch)) {
            Some(byte) => byte,
            None => {
                assert(false);
                0
            },
        };
        Creator { orchard_flags: byte, ..self }
    }

    /// Makes the transaction.
    pub fn build(self) -> (r: Pczt)
        ensures
            self@.makes(r),
    {
        Pczt {
            global: Global {
                tx_version: self.tx_version,
                version_group_id: self.version_group_id,
                consensus_branch_id: self.consensus_branch_id,
                fallback_lock_time: self.fallback_lock_time,
                expiry_height: self.expiry_height,
                coin_type: self.coin_type,
                tx_modifiable: INITIAL_TX_MODIFIABLE,
                proprietary: BTreeMap::new(),
            },
            transparent: empty_transparent_bundle(),
            sapling: empty_sapling_bundle(self.sapling_anchor),
            orchard: empty_bundle(self.orchard_flags, self.orchard_anchor),
            ironwood: empty_ironwood_bundle(),
        }
    }

    /// Makes a transaction of the parts that a transaction builder hands over. There is none
    /// where partially created transactions cannot have the version or the branch does not accept
    /// it, where there is an Ironwood bundle in a version that has none, where the flags of the
    /// Orchard bundle cannot be written down, or where a note is of a version that does not belong
    /// to its pool.
    pub fn build_from_parts(parts: PcztParts) -> (r: Option<Pczt>)
        ensures
            r is Some <==> parts.acceptable(),
            r matches Some(pczt) ==> parts.makes(pczt),
            r matches Some(pczt) ==> {
                &&& pczt.global.expiry_height == parts.expiry_height
                &&& pczt.global.fallback_lock_time == Some(parts.lock_time)
                &&& pczt.global.consensus_branch_id == parts.consensus_branch_id.code()
            },
            r matches Some(pczt) ==> {
                &&& parts.transparent matches Some(bundle) ==> pczt.transparent == bundle
                &&& parts.sapling matches Some(bundle) ==> pczt.sapling == bundle
                &&& parts.orchard matches Some(bundle) ==> pczt.orchard.actions == bundle.actions
                &&& parts.ironwood matches Some(bundle) ==> pczt.ironwood.actions == bundle.actions
            },
    {
        let (tx_version, version_group_id): (u32, u32) = match parts.version {
            TxVersion::Sprout(_) | TxVersion::V3 => {
                return None;
            },
            TxVersion::V4 => (V4_TX_VERSION, V4_VERSION_GROUP_ID),
            TxVersion::V5 => (V5_TX_VERSION, V5_VERSION_GROUP_ID),
            TxVersion::V6 => (V6_TX_VERSION, V6_VERSION_GROUP_ID),
        };
        if !parts.version.valid_in_branch(parts.consensus_branch_id) {
            return None;
        }
        let has_ironwood = matches!(parts.version, TxVersion::V6);
        if !has_ironwood && parts.ironwood.is_some() {
            return None;
        }
        let mut tx_modifiable: u8 = 0;
        let transparent = match parts.transparent {
            Some(bundle) => {
                if bundle.signs_single() {
                    tx_modifiable = FLAG_HAS_SIGHASH_SINGLE;
                }
                bundle
            },
            None => empty_transparent_bundle(),
        };
        let version = orchard_protocol_for_branch(parts.consensus_branch_id);
        let default_orchard_flags: u8 = match version {
            BundleVersion::OrchardInsecureV1 | BundleVersion::OrchardV2 => {
                LEGACY_ORCHARD_SPENDS_AND_OUTPUTS_ENABLED
            },
            _ => NU6_3_ORCHARD_CROSS_ADDRESS_DISABLED,
        };
        let orchard = match parts.orchard {
            Some(bundle) => {
                if bundle.flags.to_byte(version).is_none() {
                    return None;
                }
                PcztBundle::serialize_from(bundle, version)
            },
            None => empty_bundle(default_orchard_flags, empty_tree_anchor()),
        };
        if orchard.validate_orchard_note_plaintext_versions().is_err() {
            return None;
        }
        let ironwood = match parts.ironwood {
            Some(bundle) => PcztBundle::serialize_from(bundle, BundleVersion::IronwoodV3),
            None => empty_ironwood_bundle(),
        };
        if ironwood.validate_ironwood_note_plaintext_versions().is_err() {
            return None;
        }
        let sapling = match parts.sapling {
            Some(bundle) => bundle,
            None => empty_sapling_bundle(empty_sapling_root(TREE_DEPTH)),
        };
        Some(
            Pczt {
                global: Global {
                    tx_version,
                    version_group_id,
                    consensus_branch_id: parts.consensus_branch_id.to_u32(),
                    fallback_lock_time: Some(parts.lock_time),
                    expiry_height: parts.expiry_height,
                    coin_type: parts.params.network.coin_type(),
                    tx_modifiable,
                    proprietary: BTreeMap::new(),
                },
                transparent,
                sapling,
                orchard,
                ironwood,
            },
        )
    }
}

impl V6Creator {
    /// Sets the lock time for the case that no input requires another.
    pub fn with_fallback_lock_time(self, fallback: u32) -> (r: V6Creator)
        ensures
            r@ == (CreatorView { fallback_lock_time: Some(fallback), ..self@ }),
    {
        V6Creator { fallback_lock_time: Some(fallback), ..self }
    }

    /// Sets the Orchard flags.
    pub fn with_orchard_flags(self, orchard_flags: Flags) -> (r: V6Creator)
        requires
            orchard_flags.representable(BundleVersion::OrchardV3),
        ensures
            r@ == (CreatorView {
                orchard_flags: orchard_flags.byte(BundleVersion::OrchardV3),
                ..self@
            }),
    {
        let byte: u8 = match orchard_flags.to_byte(BundleVersion::OrchardV3) {
            Some(byte) => byte,
            None => {
                assert(false);
                0
            },
        };
        V6Creator { orchard_flags: byte, ..self }
    }

    /// Sets the Ironwood flags.
    pub fn with_ironwood_flags(self, ironwood_flags: Flags) -> (r: V6Creator)
        ensures
            r@ == (CreatorView {
                ironwood_flags: ironwood_flags.byte(BundleVersion::IronwoodV3),
                ..self@
            }),
    {
        let byte: u8 = match ironwood_flags.to_byte(BundleVersion::IronwoodV3) {
            Some(byte) => byte,
            None => {
                assert(false);
                0
            },
        };
        V6Creator { ironwood_flags: byte, ..self }
    }

    /// Sets the Ironwood anchor.
    pub fn with_ironwood_anchor(self, ironwood_anchor: [u8; 32]) -> (r: V6Creator)
        ensures
            r@ == (CreatorView { ironwood_anchor, ..self@ }),
    {
        V6Creator { ironwood_anchor, ..self }
    }

    /// Makes the transaction.
    pub fn build(self) -> (r: Pczt)
        ensures
            self@.makes(r),
    {
        Pczt {
            global: Global {
                tx_version: V6_TX_VERSION,
                version_group_id: V6_VERSION_GROUP_ID,
                consensus_branch_id: self.consensus_branch_id,
                fallback_lock_time: self.fallback_lock_time,
                expiry_height: self.expiry_height,
                coin_type: self.coin_type,
                tx_modifiable: INITIAL_TX_MODIFIABLE,
                proprietary: BTreeMap::new(),
            },
            transparent: empty_transparent_bundle(),
            sapling: empty_sapling_bundle(self.sapling_anchor),
            orchard: empty_bundle(self.orchard_flags, self.orchard_anchor),
            ironwood: empty_bundle(self.ironwood_flags, self.ironwood_anchor),
        }
    }
}

/// A transaction that a creator makes can have an Ironwood bundle just if it is one of version 6
/// on NU6.3.
pub proof fn lemma_created_version(creator: CreatorView, pczt: Pczt)
    requires
        creator.makes(pczt),
    ensures
        pczt.global.v6_error() is None <==> creator.tx_version == V6_TX_VERSION
            && creator.consensus_branch_id == BranchId::Nu6_3.code(),
{
}

/// Where a transaction is made of parts, only one of version 6 can have an Ironwood bundle that is
/// not empty.
pub proof fn lemma_no_ironwood_before_v6(parts: PcztParts, pczt: Pczt)
    requires
        parts.acceptable(),
        parts.makes(pczt),
        pczt.global.tx_version != V6_TX_VERSION,
    ensures
        pczt.ironwood@ == empty_bundle_view(
            IRONWOOD_SPENDS_AND_OUTPUTS_ENABLED,
            orchard_empty_root(TREE_DEPTH),
        ),
{
}

/// The Orchard-shaped bundles of a transaction that is made of parts are parsed to the parts, where
/// those could be parsed in the first place. A sum of zero is then not negative.
pub proof fn lemma_parts_are_parsed_back(parts: PcztParts, pczt: Pczt)
    requires
        parts.acceptable(),
        parts.makes(pczt),
    ensures
        parts.orchard matches Some(bundle) ==> {
            &&& pczt.orchard.parsed(parts.orchard_version()) == bundle.passed_on()
            &&& pczt.orchard@.actions_parse() && pallas_base_canonical(pczt.orchard.anchor@)
                && pczt.orchard@.binding_key_parses() ==> pczt.orchard@.parses(
                parts.orchard_version(),
            )
        },
        parts.ironwood matches Some(bundle) ==> {
            &&& pczt.ironwood.parsed(BundleVersion::IronwoodV3) == bundle.passed_on()
            &&& pczt.ironwood@.actions_parse() && pallas_base_canonical(pczt.ironwood.anchor@)
                && pczt.ironwood@.binding_key_parses() ==> pczt.ironwood@.parses(
                BundleVersion::IronwoodV3,
            )
        },
{
    if let Some(bundle) = parts.orchard {
        lemma_serialize_then_parse(bundle, parts.orchard_version());
        assert(pczt.orchard@.actions =~= bundle@.actions);
    }
    if let Some(bundle) = parts.ironwood {
        lemma_serialize_then_parse(bundle, BundleVersion::IronwoodV3);
        assert(pczt.ironwood@.actions =~= bundle@.actions);
    }
}

} // verus!
