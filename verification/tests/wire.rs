//! Orchard-shaped bundles in their wire format.

use ironwood::components::builder::{MaybeOrchard, WithOrchard, WithoutOrchard};
use ironwood::components::encoding::{write_compact_size, ReadError, Reader};
use ironwood::components::orchard::{
    read_action_without_auth, read_anchor, read_bundle, read_cmx, read_flags,
    read_ironwood_v6_bundle, read_note_ciphertext, read_nullifier, read_signature, read_v5_bundle, read_v6_bundle,
    read_value_commitment, read_verification_key, write_action_without_auth, write_bundle,
    write_ironwood_v6_bundle, write_v5_bundle, write_v6_bundle, Authorized, MapAuth,
    TransmittedNoteCiphertext, WireAction, WireBundle, WriteError, FLAGS_EXPECTED_UNSET,
    FLAG_OUTPUTS_ENABLED, FLAG_SPENDS_ENABLED,
};
use ironwood::consensus::{BranchId, Params};
use ironwood::pool::{BundleVersion, Flags};

/// The encoding of a point of Pallas that is not the identity.
fn point() -> [u8; 32] {
    let sk = orchard::keys::SpendingKey::from_bytes([7; 32]).unwrap();
    let address = orchard::keys::FullViewingKey::from(&sk)
        .address_at(0u32, orchard::keys::Scope::External)
        .to_raw_address_bytes();
    address[11..].try_into().unwrap()
}

fn action(n: u8) -> WireAction<[u8; 64]> {
    WireAction {
        cv_net: point(),
        nullifier: [n; 32],
        rk: point(),
        cmx: [2; 32],
        encrypted_note: TransmittedNoteCiphertext {
            epk_bytes: point(),
            enc_ciphertext: [3; 580],
            out_ciphertext: [4; 80],
        },
        authorization: [n + 10; 64],
    }
}

fn bundle(version: BundleVersion) -> WireBundle {
    WireBundle {
        actions: vec![action(1), action(2)],
        flags: version.default_flags(),
        value_balance: -5,
        anchor: [6; 32],
        authorization: Authorized { proof: vec![7; 7264], binding_signature: [8; 64] },
    }
}

fn same(a: &WireBundle, b: &WireBundle) {
    assert_eq!(a.actions.len(), b.actions.len());
    for (x, y) in a.actions.iter().zip(&b.actions) {
        assert_eq!(x.cv_net, y.cv_net);
        assert_eq!(x.nullifier, y.nullifier);
        assert_eq!(x.rk, y.rk);
        assert_eq!(x.cmx, y.cmx);
        assert_eq!(x.encrypted_note.epk_bytes, y.encrypted_note.epk_bytes);
        assert_eq!(x.encrypted_note.enc_ciphertext, y.encrypted_note.enc_ciphertext);
        assert_eq!(x.encrypted_note.out_ciphertext, y.encrypted_note.out_ciphertext);
        assert_eq!(x.authorization, y.authorization);
    }
    assert_eq!(a.flags, b.flags);
    assert_eq!(a.value_balance, b.value_balance);
    assert_eq!(a.anchor, b.anchor);
    assert_eq!(a.authorization.proof, b.authorization.proof);
    assert_eq!(a.authorization.binding_signature, b.authorization.binding_signature);
}

fn v6_bytes() -> Vec<u8> {
    let mut bytes = vec![];
    write_v6_bundle(Some(&bundle(BundleVersion::OrchardV3)), &mut bytes).unwrap();
    bytes
}

#[test]
fn a_written_bundle_is_read_back() {
    let mut bytes = v6_bytes();
    assert_eq!(bytes.len(), 1 + 2 * 820 + 1 + 8 + 32 + 3 + 7264 + 2 * 64 + 64);
    assert_eq!(bytes[0], 2);
    assert_eq!(bytes[1641], 0b11);
    assert_eq!(bytes[1642..1650], [0xfb, 0xff, 0xff, 0xff, 0xff, 0xff, 0xff, 0xff]);
    assert_eq!(bytes[1682..1685], [253, 0x60, 0x1c]);
    bytes.push(99);
    let mut reader = Reader::new(&bytes);
    let read = read_v6_bundle(&mut reader).unwrap().unwrap();
    same(&read, &bundle(BundleVersion::OrchardV3));
    assert_eq!(reader.remaining(), 1);
}

#[test]
fn ironwood_bundles_have_a_third_flag() {
    let mut bytes = vec![];
    write_ironwood_v6_bundle(Some(&bundle(BundleVersion::IronwoodV3)), &mut bytes).unwrap();
    assert_eq!(bytes[1641], 0b111);
    let read = read_ironwood_v6_bundle(&mut Reader::new(&bytes)).unwrap().unwrap();
    same(&read, &bundle(BundleVersion::IronwoodV3));
    assert_eq!(read_v6_bundle(&mut Reader::new(&bytes)).err(), Some(ReadError::InvalidFlags));
}

#[test]
fn v5_bundles_follow_the_branch() {
    let write = |version, branch| {
        let mut bytes = vec![];
        write_v5_bundle(Some(&bundle(version)), &mut bytes, branch).map(|()| bytes)
    };
    let bytes = write(BundleVersion::OrchardV2, BranchId::Nu6_2).unwrap();
    let read = read_v5_bundle(&mut Reader::new(&bytes), BranchId::Nu6_2).unwrap().unwrap();
    assert!(read.flags.cross_address_enabled);
    let read = read_v5_bundle(&mut Reader::new(&bytes), BranchId::Nu6_3).unwrap().unwrap();
    assert!(!read.flags.cross_address_enabled);
    assert_eq!(
        write(BundleVersion::OrchardV2, BranchId::Nu6_3).err(),
        Some(WriteError::UnrepresentableFlags)
    );
}

#[test]
fn a_missing_bundle_is_a_zero() {
    let mut bytes = vec![];
    write_v6_bundle(None, &mut bytes).unwrap();
    assert_eq!(bytes, vec![0]);
    assert!(read_v6_bundle(&mut Reader::new(&bytes)).unwrap().is_none());
}

#[test]
fn proofs_must_have_their_size() {
    let mut padded = bundle(BundleVersion::OrchardV2);
    padded.authorization.proof.push(0);
    let mut bytes = vec![];
    write_v5_bundle(Some(&padded), &mut bytes, BranchId::Nu6_2).unwrap();
    assert_eq!(
        read_v5_bundle(&mut Reader::new(&bytes), BranchId::Nu6_2).err(),
        Some(ReadError::NonCanonicalProofSize)
    );
    assert!(read_v5_bundle(&mut Reader::new(&bytes), BranchId::Nu6_1).is_ok());
}

#[test]
fn bundles_that_cannot_be_read() {
    let fail = |at: usize, with: &[u8]| {
        let mut bytes = v6_bytes();
        bytes[at..at + with.len()].copy_from_slice(with);
        read_v6_bundle(&mut Reader::new(&bytes)).err().unwrap()
    };
    let bad = [0xff; 32];
    assert_eq!(fail(1, &bad), ReadError::InvalidValueCommitment);
    assert_eq!(fail(33, &bad), ReadError::InvalidNullifier);
    assert_eq!(fail(65, &bad), ReadError::InvalidVerificationKey);
    assert_eq!(fail(65, &[0; 32]), ReadError::InvalidAction);
    assert_eq!(fail(97, &bad), ReadError::InvalidCmx);
    assert_eq!(fail(129, &bad), ReadError::InvalidAction);
    assert_eq!(fail(1641, &[4]), ReadError::InvalidFlags);
    assert_eq!(fail(1642, &[0, 0, 0, 0, 0, 0, 0, 0x7f]), ReadError::InvalidAmount);
    assert_eq!(fail(1650, &bad), ReadError::InvalidAnchor);
    assert_eq!(fail(0, &[253, 2, 0]), ReadError::InvalidCompactSize);
    assert_eq!(fail(0, &[254, 1, 0, 0, 2]), ReadError::InvalidCompactSize);
    for len in [0, 1, 32, 820, 821, 1641, 1645, 1700, 9000] {
        let bytes = v6_bytes();
        assert_eq!(
            read_v6_bundle(&mut Reader::new(&bytes[..len])).err(),
            Some(ReadError::UnexpectedEof)
        );
    }
}

#[test]
fn compact_sizes() {
    let write = |n| {
        let mut bytes = vec![];
        write_compact_size(&mut bytes, n).then_some(bytes)
    };
    assert_eq!(write(0), Some(vec![0]));
    assert_eq!(write(252), Some(vec![252]));
    assert_eq!(write(253), Some(vec![253, 253, 0]));
    assert_eq!(write(65535), Some(vec![253, 255, 255]));
    assert_eq!(write(65536), Some(vec![254, 0, 0, 1, 0]));
    assert_eq!(write(0x02000000), Some(vec![254, 0, 0, 0, 2]));
    assert_eq!(write(0x02000001), None);
    let read = |bytes: &[u8]| Reader::new(bytes).read_compact_size();
    assert_eq!(read(&[252]), Ok(252));
    assert_eq!(read(&[253, 255, 255]), Ok(65535));
    assert_eq!(read(&[254, 0, 0, 0, 2]), Ok(0x02000000));
    assert_eq!(read(&[253, 252, 0]), Err(ReadError::InvalidCompactSize));
    assert_eq!(read(&[254, 255, 255, 0, 0]), Err(ReadError::InvalidCompactSize));
    assert_eq!(read(&[255, 0, 0, 0, 0, 1, 0, 0, 0]), Err(ReadError::InvalidCompactSize));
    assert_eq!(read(&[253, 0]), Err(ReadError::UnexpectedEof));
    assert_eq!(read(&[]), Err(ReadError::UnexpectedEof));
}

#[test]
fn parts_are_read_one_by_one() {
    let mut bytes = vec![];
    write_action_without_auth(&mut bytes, &action(1));
    assert_eq!(bytes.len(), 820);
    let read = read_action_without_auth(&mut Reader::new(&bytes)).unwrap_or_else(|_| panic!());
    assert_eq!(read.nullifier, [1; 32]);

    let mut reader = Reader::new(&bytes);
    assert_eq!(read_value_commitment(&mut reader), Ok(point()));
    assert_eq!(read_nullifier(&mut reader), Ok([1; 32]));
    assert_eq!(read_verification_key(&mut reader), Ok(point()));
    assert_eq!(read_cmx(&mut reader), Ok([2; 32]));
    let note = read_note_ciphertext(&mut reader).unwrap_or_else(|_| panic!());
    assert_eq!(note.out_ciphertext, [4; 80]);
    assert_eq!(reader.remaining(), 0);
    assert_eq!(read_signature(&mut reader), Err(ReadError::UnexpectedEof));
    assert_eq!(read_anchor(&mut Reader::new(&[1; 32])), Ok([1; 32]));
    assert_eq!(read_anchor(&mut Reader::new(&[0xff; 32])), Err(ReadError::InvalidAnchor));
    assert_eq!(
        read_flags(&mut Reader::new(&[1]), BundleVersion::OrchardV3),
        Ok(Flags { spends_enabled: true, outputs_enabled: false, cross_address_enabled: false })
    );
}

#[test]
fn flag_bits() {
    assert_eq!(FLAGS_EXPECTED_UNSET, !(FLAG_SPENDS_ENABLED | FLAG_OUTPUTS_ENABLED));
}

#[test]
fn the_identity_map_changes_nothing() {
    assert_eq!(().map_spend_auth([5; 64]), [5; 64]);
    let authorized = ().map_authorization(Authorized {
        proof: vec![1],
        binding_signature: [2; 64],
    });
    assert_eq!(authorized.proof, vec![1]);
    assert_eq!(authorized.binding_signature, [2; 64]);
}

#[test]
fn a_bundle_is_built_once_the_pool_is_active() {
    let params = Params::main_network();
    let anchor = orchard::Anchor::empty_tree().to_bytes();
    assert_eq!(WithOrchard::new(&params, 1_687_103, anchor).build(|_| 1), None);
    assert_eq!(WithoutOrchard.build(|_| 1), None);
    let nothing_to_build = WithOrchard::new(&params, 1_687_104, anchor)
        .build(|builder| {
            builder
                .build::<i64>(rand::rand_core::UnwrapErr(rand::rngs::SysRng))
                .map(|bundle| bundle.is_none())
                .unwrap_or(false)
        })
        .unwrap();
    assert!(nothing_to_build);
}

#[test]
fn an_orchard_bundle_is_read_alike_as_an_ironwood_bundle() {
    let bytes = v6_bytes();
    let orchard = read_v6_bundle(&mut Reader::new(&bytes)).unwrap().unwrap();
    let ironwood = read_ironwood_v6_bundle(&mut Reader::new(&bytes)).unwrap().unwrap();
    same(&orchard, &ironwood);
}

#[test]
fn a_proof_of_the_expected_size_is_read_by_all_branches() {
    let mut bytes = vec![];
    write_v5_bundle(Some(&bundle(BundleVersion::OrchardV2)), &mut bytes, BranchId::Nu6_2).unwrap();
    let strict = read_v5_bundle(&mut Reader::new(&bytes), BranchId::Nu6_2).unwrap().unwrap();
    let lenient = read_v5_bundle(&mut Reader::new(&bytes), BranchId::Nu5).unwrap().unwrap();
    same(&strict, &lenient);
}

#[test]
fn a_bundle_that_is_read_is_written_as_it_was() {
    let bytes = v6_bytes();
    let read = read_v6_bundle(&mut Reader::new(&bytes)).unwrap();
    let mut again = vec![1, 2];
    write_v6_bundle(read.as_ref(), &mut again).unwrap();
    assert_eq!(again[..2], [1, 2]);
    assert_eq!(again[2..], bytes[..]);
}

#[test]
fn bundles_of_all_versions_are_read_back() {
    for version in [
        BundleVersion::OrchardInsecureV1,
        BundleVersion::OrchardV2,
        BundleVersion::OrchardV3,
        BundleVersion::IronwoodV3,
    ] {
        let written = bundle(version);
        let mut bytes = vec![];
        write_bundle(Some(&written), &mut bytes, version).unwrap();
        assert_ne!(bytes, vec![0]);
        let mut reader = Reader::new(&bytes);
        let read = read_bundle(&mut reader, version).unwrap().unwrap();
        same(&read, &written);
        assert_eq!(reader.remaining(), 0);

        let mut bytes = vec![];
        write_bundle(None, &mut bytes, version).unwrap();
        assert_eq!(bytes, vec![0]);
        let mut reader = Reader::new(&bytes);
        assert!(read_bundle(&mut reader, version).unwrap().is_none());
        assert_eq!(reader.remaining(), 0);
    }
}
