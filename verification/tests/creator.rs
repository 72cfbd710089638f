//! The Creator role.

use ironwood::consensus::{
    BranchId, Params, TxVersion, V4_TX_VERSION, V4_VERSION_GROUP_ID, V5_TX_VERSION,
    V5_VERSION_GROUP_ID, V6_TX_VERSION, V6_VERSION_GROUP_ID,
};
use ironwood::pczt::creator::{
    Creator, PcztParts, INITIAL_TX_MODIFIABLE, NU6_3_ORCHARD_CROSS_ADDRESS_DISABLED,
};
use ironwood::pczt::orchard::{empty_ironwood_bundle, ParsedBundle};
use ironwood::pczt::transparent::{TransparentPcztBundle, TransparentPcztInput};
use ironwood::pczt::Pczt;
use ironwood::pool::{BundleVersion, Flags};

use std::collections::BTreeMap;

const CROSS_ADDRESS_DISABLED: Flags = Flags {
    spends_enabled: true,
    outputs_enabled: true,
    cross_address_enabled: false,
};

fn assert_fallback_ironwood(pczt: &Pczt) {
    let fallback = empty_ironwood_bundle();
    assert!(pczt.ironwood.actions.is_empty());
    assert_eq!(pczt.ironwood.flags, fallback.flags);
    assert_eq!(pczt.ironwood.value_sum, fallback.value_sum);
    assert_eq!(pczt.ironwood.anchor, fallback.anchor);
    assert_eq!(pczt.ironwood.zkproof, fallback.zkproof);
    assert_eq!(pczt.ironwood.bsk, fallback.bsk);
}

fn parts(version: TxVersion, branch: BranchId) -> PcztParts {
    PcztParts {
        params: Params::test_network(),
        version,
        consensus_branch_id: branch,
        lock_time: 0,
        expiry_height: 0,
        transparent: None,
        sapling: None,
        orchard: None,
        ironwood: None,
    }
}

#[test]
fn new_keeps_legacy_v5_format_on_nu6_3_branch() {
    let pczt =
        Creator::new(BranchId::Nu6_3.to_u32(), 10_000_000, 133, [0; 32], [0; 32]).build();

    assert_eq!(pczt.global.tx_version, V5_TX_VERSION);
    assert_eq!(pczt.global.version_group_id, V5_VERSION_GROUP_ID);
    assert_fallback_ironwood(&pczt);
}

#[test]
fn new_v6_selects_v6() {
    let pczt = Creator::new_v6(
        BranchId::Nu6_3.to_u32(),
        10_000_000,
        133,
        [0; 32],
        [0; 32],
        [1; 32],
    )
    .build();

    assert_eq!(pczt.global.tx_version, V6_TX_VERSION);
    assert_eq!(pczt.global.version_group_id, V6_VERSION_GROUP_ID);
    assert_eq!(pczt.orchard.flags, NU6_3_ORCHARD_CROSS_ADDRESS_DISABLED);
    assert_eq!(pczt.ironwood.anchor, [1; 32]);
}

#[test]
fn explicit_orchard_flags_use_selected_format() {
    let pczt = Creator::new(BranchId::Nu6_3.to_u32(), 10_000_000, 133, [0; 32], [0; 32])
        .with_orchard_flags(CROSS_ADDRESS_DISABLED)
        .build();

    assert_eq!(pczt.global.tx_version, V5_TX_VERSION);
    assert_eq!(pczt.orchard.flags, 0b0000_0011);

    let pczt = Creator::new_v6(
        BranchId::Nu6_3.to_u32(),
        10_000_000,
        133,
        [0; 32],
        [0; 32],
        [1; 32],
    )
    .with_orchard_flags(CROSS_ADDRESS_DISABLED)
    .build();

    assert_eq!(pczt.global.tx_version, V6_TX_VERSION);
    assert_eq!(pczt.orchard.flags, 0b0000_0011);
}

#[test]
fn build_from_parts_uses_empty_ironwood_bundle() {
    let pczt = Creator::build_from_parts(parts(TxVersion::V6, BranchId::Nu6_3)).unwrap();
    assert_fallback_ironwood(&pczt);
}

#[test]
fn build_from_parts_rejects_version_invalid_for_branch() {
    assert!(Creator::build_from_parts(parts(TxVersion::V6, BranchId::Nu5)).is_none());
}

#[test]
fn build_from_parts_rejects_metadata_only_ironwood_for_v5() {
    let mut ironwood = empty_ironwood_bundle();
    ironwood.anchor = [1; 32];
    let ironwood = ironwood.into_parsed_ironwood().unwrap();

    let mut parts = parts(TxVersion::V5, BranchId::Nu5);
    parts.ironwood = Some(ironwood);
    assert!(Creator::build_from_parts(parts).is_none());
}

#[test]
fn the_empty_trees_have_the_anchors_of_the_pools() {
    let pczt = Creator::build_from_parts(parts(TxVersion::V5, BranchId::Nu6_2)).unwrap();
    assert_eq!(pczt.orchard.anchor, orchard::Anchor::empty_tree().to_bytes());
    assert_eq!(pczt.sapling.anchor, sapling_crypto::Anchor::empty_tree().to_bytes());
    assert_eq!(pczt.ironwood.anchor, orchard::Anchor::empty_tree().to_bytes());
    assert_eq!(
        pczt.ironwood.anchor[..4],
        [0xae, 0x29, 0x35, 0xf1]
    );
}

#[test]
fn everything_may_be_modified_at_first() {
    assert_eq!(INITIAL_TX_MODIFIABLE, 0b1000_0011);
    let pczt = Creator::new(BranchId::Nu5.to_u32(), 7, 133, [2; 32], [3; 32])
        .with_fallback_lock_time(9)
        .build();
    assert_eq!(pczt.global.tx_modifiable, 0b1000_0011);
    assert_eq!(pczt.global.fallback_lock_time, Some(9));
    assert_eq!(pczt.global.expiry_height, 7);
    assert_eq!(pczt.global.coin_type, 133);
    assert_eq!(pczt.sapling.anchor, [2; 32]);
    assert_eq!(pczt.orchard.anchor, [3; 32]);
    assert_eq!(pczt.orchard.value_sum, (0, true));
    assert!(pczt.global.proprietary.is_empty());
}

#[test]
fn v6_settings_are_kept() {
    let pczt = Creator::new_v6(BranchId::Nu6_3.to_u32(), 7, 133, [2; 32], [3; 32], [4; 32])
        .with_fallback_lock_time(1)
        .with_ironwood_anchor([5; 32])
        .with_ironwood_flags(Flags {
            spends_enabled: false,
            outputs_enabled: true,
            cross_address_enabled: true,
        })
        .build();
    assert_eq!(pczt.global.fallback_lock_time, Some(1));
    assert_eq!(pczt.ironwood.anchor, [5; 32]);
    assert_eq!(pczt.ironwood.flags, 0b0000_0110);
}

fn input(sighash_type: u8) -> TransparentPcztInput {
    TransparentPcztInput {
        prevout_txid: [0; 32],
        prevout_index: 0,
        sequence: None,
        required_time_lock_time: None,
        required_height_lock_time: None,
        script_sig: None,
        value: 1,
        script_pubkey: vec![],
        redeem_script: None,
        partial_signatures: BTreeMap::new(),
        sighash_type,
        bip32_derivation: BTreeMap::new(),
        ripemd160_preimages: BTreeMap::new(),
        sha256_preimages: BTreeMap::new(),
        hash160_preimages: BTreeMap::new(),
        hash256_preimages: BTreeMap::new(),
        proprietary: BTreeMap::new(),
    }
}

#[test]
fn sighash_single_is_noted() {
    for (sighash_type, modifiable) in
        [(0x01, 0), (0x02, 0), (0x03, 4), (0x81, 0), (0x82, 0), (0x83, 4)]
    {
        let mut parts = parts(TxVersion::V5, BranchId::Nu5);
        parts.transparent = Some(TransparentPcztBundle {
            inputs: vec![input(0x01), input(sighash_type)],
            outputs: vec![],
        });
        let pczt = Creator::build_from_parts(parts).unwrap();
        assert_eq!(pczt.global.tx_modifiable, modifiable);
        assert_eq!(pczt.transparent.inputs.len(), 2);
    }
}

#[test]
fn versions_and_branches() {
    let global = |version, branch| {
        Creator::build_from_parts(parts(version, branch)).map(|pczt| {
            (
                pczt.global.tx_version,
                pczt.global.version_group_id,
                pczt.global.consensus_branch_id,
                pczt.global.coin_type,
            )
        })
    };
    assert_eq!(global(TxVersion::Sprout(1), BranchId::Sprout), None);
    assert_eq!(global(TxVersion::V3, BranchId::Overwinter), None);
    assert_eq!(
        global(TxVersion::V4, BranchId::Canopy),
        Some((V4_TX_VERSION, V4_VERSION_GROUP_ID, 0xe9ff_75a6, 1))
    );
    assert_eq!(
        global(TxVersion::V5, BranchId::Nu6_2),
        Some((V5_TX_VERSION, V5_VERSION_GROUP_ID, 0x5437_f330, 1))
    );
    assert_eq!(
        global(TxVersion::V6, BranchId::Nu6_3),
        Some((V6_TX_VERSION, V6_VERSION_GROUP_ID, 0x37a5_165b, 1))
    );
    assert_eq!(global(TxVersion::V6, BranchId::Nu6_2), None);
    assert_eq!(global(TxVersion::V5, BranchId::Canopy), None);
}

fn parsed(flags: Flags) -> ParsedBundle {
    let mut bundle = empty_ironwood_bundle().into_parsed_ironwood().unwrap();
    bundle.flags = flags;
    bundle
}

#[test]
fn flags_that_cannot_be_written_are_refused() {
    let build = |flags: Flags, branch| {
        let mut parts = parts(TxVersion::V5, branch);
        parts.orchard = Some(parsed(flags));
        Creator::build_from_parts(parts).map(|pczt| pczt.orchard.flags)
    };
    let unrestricted = BundleVersion::IronwoodV3.default_flags();
    assert_eq!(build(unrestricted, BranchId::Nu6_2), Some(0b11));
    assert_eq!(build(unrestricted, BranchId::Nu6_3), None);
    assert_eq!(build(CROSS_ADDRESS_DISABLED, BranchId::Nu6_2), None);
    assert_eq!(build(CROSS_ADDRESS_DISABLED, BranchId::Nu6_3), Some(0b11));
}

#[test]
fn versions_before_v6_have_an_empty_ironwood_bundle() {
    for (version, branch) in [(TxVersion::V4, BranchId::Canopy), (TxVersion::V5, BranchId::Nu6_3)] {
        assert_fallback_ironwood(&Creator::build_from_parts(parts(version, branch)).unwrap());
    }
}

#[test]
fn parts_are_parsed_back() {
    let flags = Flags {
        spends_enabled: false,
        outputs_enabled: true,
        cross_address_enabled: true,
    };
    let mut given = parts(TxVersion::V6, BranchId::Nu6_3);
    given.ironwood = Some(parsed(flags));
    let pczt = Creator::build_from_parts(given).unwrap();
    assert_eq!(pczt.ironwood.flags, 0b110);
    assert_eq!(pczt.ironwood.into_parsed_ironwood().unwrap_or_else(|_| panic!()).flags, flags);
}

#[test]
fn networks_have_their_coin_types() {
    let mut given = parts(TxVersion::V5, BranchId::Nu5);
    given.params = Params::main_network();
    assert_eq!(Creator::build_from_parts(given).unwrap().global.coin_type, 133);
}
