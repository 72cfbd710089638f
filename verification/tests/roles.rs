//! The Signer, the Verifier, the Prover and the Transaction Extractor.

use ironwood::components::orchard::{
    Authorized, TransmittedNoteCiphertext, WireAction, WireBundle,
};
use ironwood::consensus::BranchId;
use ironwood::pczt::common::{ensure_v6_consensus_branch, VersionError};
use ironwood::pczt::creator::Creator;
use ironwood::pczt::low_level_signer::Signer;
use ironwood::pczt::orchard::{
    BundleParseError, ParsedBundle, PcztAction, PcztBundle, PcztDerivation, PcztOutput, PcztSpend,
};
use ironwood::pczt::orchard_verifier::{OrchardError as VerifierError, Verifier};
use ironwood::pczt::prover::{add_proof, OrchardError as ProverError};
use ironwood::pczt::sapling::{SaplingParseError, SaplingPcztSpend};
use ironwood::pczt::transparent::TransparentPcztOutput;
use ironwood::pczt::tx_extractor::{verdict, OrchardError as ExtractorError};
use ironwood::pczt::Pczt;
use ironwood::pool::{BundleVersion, Flags, NoteVersion};

use std::collections::BTreeMap;

#[derive(Debug)]
enum SignError {
    Parse(BundleParseError),
    Sapling(SaplingParseError),
    Transparent,
    Refused,
}

impl From<BundleParseError> for SignError {
    fn from(e: BundleParseError) -> Self {
        SignError::Parse(e)
    }
}

impl From<SaplingParseError> for SignError {
    fn from(e: SaplingParseError) -> Self {
        SignError::Sapling(e)
    }
}

impl From<zcash_transparent::pczt::ParseError> for SignError {
    fn from(_: zcash_transparent::pczt::ParseError) -> Self {
        SignError::Transparent
    }
}

/// The encoding of a point of Pallas that is not the identity: its x is -1 and its y is 2.
fn point() -> [u8; 32] {
    let sk = orchard::keys::SpendingKey::from_bytes([7; 32]).unwrap();
    let address = orchard::keys::FullViewingKey::from(&sk)
        .address_at(0u32, orchard::keys::Scope::External)
        .to_raw_address_bytes();
    address[11..].try_into().unwrap()
}

fn action(version: NoteVersion) -> PcztAction {
    PcztAction {
        cv_net: point(),
        spend: PcztSpend {
            nullifier: [1; 32],
            rk: point(),
            spend_auth_sig: Some([2; 64]),
            recipient: None,
            value: Some(5),
            rho: None,
            rseed: None,
            fvk: None,
            witness: None,
            alpha: Some([3; 32]),
            zip32_derivation: Some(PcztDerivation {
                seed_fingerprint: [4; 32],
                derivation_path: vec![0x8000_0020],
            }),
            dummy_sk: None,
            note_version: version,
            proprietary: BTreeMap::new(),
        },
        output: PcztOutput {
            cmx: [5; 32],
            ephemeral_key: point(),
            enc_ciphertext: vec![6; 580],
            out_ciphertext: vec![7; 80],
            recipient: None,
            value: None,
            rseed: None,
            ock: Some([8; 32]),
            zip32_derivation: None,
            user_address: Some("u1".to_string()),
            note_version: version,
            proprietary: BTreeMap::new(),
        },
        rcv: Some([9; 32]),
    }
}

fn v6() -> Pczt {
    let mut pczt =
        Creator::new_v6(BranchId::Nu6_3.to_u32(), 7, 133, [0; 32], [1; 32], [2; 32]).build();
    pczt.orchard.actions.push(action(NoteVersion::V2));
    pczt.ironwood.actions.push(action(NoteVersion::V3));
    pczt
}

fn v5() -> Pczt {
    Creator::new(BranchId::Nu6_3.to_u32(), 7, 133, [0; 32], [1; 32]).build()
}

#[test]
fn orchard_spends_are_signed() {
    let signer = Signer::new(v6())
        .sign_orchard_with::<SignError, _>(|pczt, bundle, modifiable| {
            assert_eq!(pczt.global.expiry_height, 7);
            assert_eq!(pczt.orchard.actions.len(), 1);
            assert_eq!(bundle.actions.len(), 1);
            assert!(!bundle.flags.cross_address_enabled);
            bundle.actions[0].spend.spend_auth_sig = Some([11; 64]);
            *modifiable = 0;
            Ok(())
        })
        .unwrap_or_else(|_| panic!("the bundle can be signed"));
    let pczt = signer.finish();
    assert_eq!(pczt.global.tx_modifiable, 0);
    assert_eq!(pczt.orchard.actions[0].spend.spend_auth_sig, Some([11; 64]));
    assert_eq!(pczt.orchard.actions[0].spend.value, Some(5));
    assert_eq!(pczt.orchard.flags, 0b11);
    assert_eq!(pczt.ironwood.actions[0].spend.spend_auth_sig, Some([2; 64]));
}

#[test]
fn ironwood_spends_are_signed() {
    let pczt = Signer::new(v6())
        .sign_ironwood_with::<SignError, _>(|_, bundle, _| {
            assert!(bundle.flags.cross_address_enabled);
            bundle.actions[0].spend.spend_auth_sig = Some([11; 64]);
            Ok(())
        })
        .unwrap_or_else(|_| panic!("the bundle can be signed"))
        .finish();
    assert_eq!(pczt.ironwood.actions[0].spend.spend_auth_sig, Some([11; 64]));
    assert_eq!(pczt.orchard.actions[0].spend.spend_auth_sig, Some([2; 64]));
    assert_eq!(pczt.global.tx_modifiable, 0b1000_0011);
}

#[test]
fn ironwood_spends_are_signed_in_v6_on_nu6_3_only() {
    let mut called = false;
    let err = Signer::new(v5())
        .sign_ironwood_with::<SignError, _>(|_, _, _| {
            called = true;
            Ok(())
        })
        .err()
        .unwrap();
    assert!(matches!(
        err,
        SignError::Parse(BundleParseError::Version(VersionError::TxVersion(5)))
    ));
    assert!(!called);

    let mut pczt = v6();
    pczt.global.consensus_branch_id = BranchId::Nu6_2.to_u32();
    assert!(matches!(
        ensure_v6_consensus_branch(&pczt.global),
        Err(VersionError::ConsensusBranch(0x5437_f330))
    ));
    assert!(Signer::new(pczt).sign_ironwood_with::<SignError, _>(|_, _, _| Ok(())).is_err());
    assert!(ensure_v6_consensus_branch(&v6().global).is_ok());
}

#[test]
fn a_refusal_to_sign_is_handed_on() {
    let err = Signer::new(v6())
        .sign_orchard_with::<SignError, _>(|_, _, _| Err(SignError::Refused))
        .err()
        .unwrap();
    assert!(matches!(err, SignError::Refused));
}

fn parse_failure(change: impl FnOnce(&mut PcztBundle)) -> BundleParseError {
    let mut pczt = v6();
    change(&mut pczt.ironwood);
    match Signer::new(pczt).sign_ironwood_with::<SignError, _>(|_, _, _| Ok(())) {
        Err(SignError::Parse(e)) => e,
        _ => panic!("the bundle should not be parsed"),
    }
}

#[test]
fn bundles_that_cannot_be_parsed() {
    assert!(matches!(
        parse_failure(|b| b.actions[0].spend.note_version = NoteVersion::V2),
        BundleParseError::NoteVersion
    ));
    assert!(matches!(
        parse_failure(|b| b.actions[0].output.note_version = NoteVersion::V2),
        BundleParseError::NoteVersion
    ));
    assert!(matches!(
        parse_failure(|b| b.actions[0].spend.nullifier = [0xff; 32]),
        BundleParseError::Part(orchard::pczt::ParseError::InvalidNullifier)
    ));
    assert!(matches!(
        parse_failure(|b| b.actions[0].spend.rk = [0xff; 32]),
        BundleParseError::Part(orchard::pczt::ParseError::InvalidRandomizedKey)
    ));
    assert!(matches!(
        parse_failure(|b| b.actions[0].output.cmx = [0xff; 32]),
        BundleParseError::Part(orchard::pczt::ParseError::InvalidExtractedNoteCommitment)
    ));
    assert!(matches!(
        parse_failure(|b| b.actions[0].cv_net = [0xff; 32]),
        BundleParseError::Part(orchard::pczt::ParseError::InvalidValueCommitment)
    ));
    assert!(matches!(
        parse_failure(|b| b.actions[0].rcv = Some([0xff; 32])),
        BundleParseError::Part(orchard::pczt::ParseError::InvalidValueCommitTrapdoor)
    ));
    assert!(matches!(
        parse_failure(|b| {
            b.actions[0].spend.zip32_derivation.as_mut().unwrap().derivation_path.push(5)
        }),
        BundleParseError::Part(orchard::pczt::ParseError::InvalidZip32Derivation)
    ));
    assert!(matches!(parse_failure(|b| b.flags = 0b1000), BundleParseError::UnexpectedFlagBitsSet));
    assert!(matches!(parse_failure(|b| b.anchor = [0xff; 32]), BundleParseError::InvalidAnchor));
    assert!(matches!(parse_failure(|b| b.bsk = Some([0xff; 32])), BundleParseError::InvalidBindingKey));
}

#[test]
fn sapling_spends_are_signed() {
    let pczt = Signer::new(v5())
        .sign_sapling_with::<SignError, _>(|pczt, bundle, modifiable| {
            assert_eq!(pczt.global.tx_version, 5);
            bundle.value_sum = 3;
            *modifiable = 1;
            Ok(())
        })
        .unwrap_or_else(|_| panic!("the bundle can be signed"))
        .finish();
    assert_eq!(pczt.sapling.value_sum, 3);
    assert_eq!(pczt.global.tx_modifiable, 1);

    let mut pczt = v5();
    pczt.sapling.anchor = [0xff; 32];
    assert!(matches!(
        Signer::new(pczt).sign_sapling_with::<SignError, _>(|_, _, _| Ok(())).err(),
        Some(SignError::Sapling(SaplingParseError::Part(
            sapling_crypto::pczt::ParseError::InvalidAnchor
        )))
    ));
    let mut pczt = v5();
    pczt.sapling.bsk = Some([0xff; 32]);
    assert!(Signer::new(pczt).sign_sapling_with::<SignError, _>(|_, _, _| Ok(())).is_err());
    assert!(matches!(
        spend_failure(|spend| spend.cv = [0xff; 32]),
        SaplingParseError::Part(sapling_crypto::pczt::ParseError::InvalidValueCommitment)
    ));
    assert!(matches!(
        spend_failure(|spend| spend.proof_generation_key = Some(([0xff; 32], [0; 32]))),
        SaplingParseError::InvalidProofGenerationKey
    ));
    assert!(matches!(
        spend_failure(|spend| spend.dummy_ask = Some([0xff; 32])),
        SaplingParseError::InvalidDummySpendAuthorizingKey
    ));
    assert!(matches!(
        spend_failure(|spend| {
            spend.zip32_derivation = Some(PcztDerivation {
                seed_fingerprint: [0; 32],
                derivation_path: vec![3],
            })
        }),
        SaplingParseError::Part(sapling_crypto::pczt::ParseError::InvalidZip32Derivation)
    ));
}

/// The encoding of a point of Jubjub of large order.
fn jubjub_point() -> [u8; 32] {
    let key = sapling_crypto::zip32::ExtendedSpendingKey::master(&[0; 32]).unwrap();
    key.default_address().1.to_bytes()[11..].try_into().unwrap()
}

#[test]
fn the_first_thing_wrong_with_a_sapling_spend_is_reported() {
    assert!(matches!(
        spend_failure(|spend| {
            spend.cv = [0xff; 32];
            spend.proof_generation_key = Some(([0xff; 32], [0; 32]));
        }),
        SaplingParseError::Part(sapling_crypto::pczt::ParseError::InvalidValueCommitment)
    ));
    assert!(matches!(
        spend_failure(|spend| {
            spend.proof_generation_key = Some(([0xff; 32], [0; 32]));
            spend.alpha = Some([0xff; 32]);
        }),
        SaplingParseError::InvalidProofGenerationKey
    ));
    assert!(matches!(
        spend_failure(|spend| {
            spend.alpha = Some([0xff; 32]);
            spend.dummy_ask = Some([0xff; 32]);
        }),
        SaplingParseError::Part(sapling_crypto::pczt::ParseError::InvalidSpendAuthRandomizer)
    ));
}

fn spend_failure(change: impl FnOnce(&mut SaplingPcztSpend)) -> SaplingParseError {
    let mut spend = SaplingPcztSpend {
        cv: jubjub_point(),
        nullifier: [0; 32],
        rk: jubjub_point(),
        zkproof: None,
        spend_auth_sig: None,
        recipient: None,
        value: None,
        rcm: None,
        rseed: None,
        rcv: None,
        proof_generation_key: None,
        witness: None,
        alpha: None,
        zip32_derivation: None,
        dummy_ask: None,
        proprietary: BTreeMap::new(),
    };
    change(&mut spend);
    let mut pczt = v5();
    pczt.sapling.spends.push(spend);
    match Signer::new(pczt).sign_sapling_with::<SignError, _>(|_, _, _| Ok(())) {
        Err(SignError::Sapling(e)) => e,
        _ => panic!("the bundle should not be parsed"),
    }
}

#[test]
fn transparent_inputs_are_signed() {
    let output = |value| TransparentPcztOutput {
        value,
        script_pubkey: vec![],
        redeem_script: None,
        bip32_derivation: BTreeMap::new(),
        user_address: None,
        proprietary: BTreeMap::new(),
    };
    let mut pczt = v5();
    pczt.transparent.outputs.push(output(5));
    let pczt = Signer::new(pczt)
        .sign_transparent_with::<SignError, _>(|_, bundle, _| {
            bundle.outputs[0].value = 6;
            Ok(())
        })
        .unwrap_or_else(|_| panic!("the bundle can be signed"))
        .finish();
    assert_eq!(pczt.transparent.outputs[0].value, 6);

    let mut pczt = v5();
    pczt.transparent.outputs.push(output(u64::MAX));
    assert!(matches!(
        Signer::new(pczt).sign_transparent_with::<SignError, _>(|_, _, _| Ok(())).err(),
        Some(SignError::Transparent)
    ));
}

#[test]
fn the_verifier_changes_nothing() {
    let check = |bundle: &ParsedBundle| {
        assert_eq!(bundle.actions[0].output.enc_ciphertext.len(), 580);
        Ok(())
    };
    let pczt = Verifier::new(v6())
        .with_orchard::<(), _>(check)
        .unwrap_or_else(|_| panic!("the Orchard bundle is accepted"))
        .with_ironwood::<(), _>(check)
        .unwrap_or_else(|_| panic!("the Ironwood bundle is accepted"))
        .finish();
    let before = v6();
    assert_eq!(pczt.orchard.flags, before.orchard.flags);
    assert_eq!(pczt.ironwood.flags, before.ironwood.flags);
    assert_eq!(pczt.orchard.actions[0].spend.alpha, before.orchard.actions[0].spend.alpha);
    assert_eq!(pczt.global.tx_modifiable, before.global.tx_modifiable);
}

#[test]
fn the_verifier_reports() {
    let err = Verifier::new(v6())
        .with_orchard::<u8, _>(|_| Err(VerifierError::Custom(4)))
        .err()
        .unwrap();
    assert!(matches!(err, VerifierError::Custom(4)));
    let err = Verifier::new(v5())
        .with_ironwood::<u8, _>(|_| panic!("must not be called"))
        .err()
        .unwrap();
    assert!(matches!(
        err,
        VerifierError::Parse(BundleParseError::Version(VersionError::TxVersion(5)))
    ));
    let err: VerifierError<u8> = orchard::pczt::VerifyError::MissingRecipient.into();
    assert!(matches!(
        err,
        VerifierError::Verify(orchard::pczt::VerifyError::MissingRecipient)
    ));
}

#[test]
fn a_created_proof_is_added() {
    let bundle = v6().orchard;
    let proved = add_proof(bundle, Ok(Some(vec![1, 2]))).unwrap_or_else(|_| panic!("added"));
    assert_eq!(proved.zkproof, Some(vec![1, 2]));
    assert_eq!(proved.actions.len(), 1);
    let failed = add_proof(v6().orchard, Err(orchard::pczt::ProverError::MissingWitness));
    assert!(matches!(
        failed,
        Err(ProverError::Prover(orchard::pczt::ProverError::MissingWitness))
    ));
}

#[test]
fn verdicts() {
    assert!(verdict(true, true).is_ok());
    assert!(matches!(verdict(true, false), Err(ExtractorError::InvalidProof)));
    assert!(matches!(verdict(false, true), Err(ExtractorError::InvalidProof)));
}

#[test]
fn flags_and_bytes() {
    let all = BundleVersion::IronwoodV3.default_flags();
    assert_eq!(all.to_byte(BundleVersion::IronwoodV3), Some(7));
    assert_eq!(all.to_byte(BundleVersion::OrchardV2), Some(3));
    assert_eq!(all.to_byte(BundleVersion::OrchardV3), None);
    assert_eq!(Flags::from_byte(4, BundleVersion::OrchardV3), None);
    assert_eq!(
        Flags::from_byte(4, BundleVersion::IronwoodV3),
        Some(Flags {
            spends_enabled: false,
            outputs_enabled: false,
            cross_address_enabled: true
        })
    );
    assert_eq!(Flags::from_byte(8, BundleVersion::IronwoodV3), None);
    assert!(BundleVersion::OrchardV2.enforces_canonical_proof_size());
    assert!(!BundleVersion::OrchardInsecureV1.enforces_canonical_proof_size());
    assert_eq!(BundleVersion::IronwoodV3.note_version(), NoteVersion::V3);
}

fn made_up_bundle() -> WireBundle {
    let note = TransmittedNoteCiphertext {
        epk_bytes: point(),
        enc_ciphertext: [0; 580],
        out_ciphertext: [0; 80],
    };
    WireBundle {
        actions: vec![WireAction {
            cv_net: point(),
            nullifier: [1; 32],
            rk: point(),
            cmx: [2; 32],
            encrypted_note: note,
            authorization: [3; 64],
        }],
        flags: BundleVersion::OrchardV3.default_flags(),
        value_balance: 0,
        anchor: [4; 32],
        authorization: Authorized { proof: vec![0; 4992], binding_signature: [5; 64] },
    }
}

#[test]
fn bundles_of_another_version_are_not_verified() {
    let bundle = made_up_bundle();
    assert!(bundle.is_valid(BundleVersion::OrchardV3));
    for version in [BundleVersion::OrchardV2, BundleVersion::OrchardInsecureV1] {
        let r = ironwood::pczt::tx_extractor::verify_any_bundle(
            &bundle,
            version,
            None,
            ironwood::pczt::tx_extractor::CircuitVersion::FixedPostNu6_2,
            [6; 32],
        );
        assert!(r.is_none());
    }
    let invalid = |change: &dyn Fn(&mut WireBundle)| {
        let mut bundle = made_up_bundle();
        change(&mut bundle);
        assert!(!bundle.is_valid(BundleVersion::OrchardV3));
    };
    invalid(&|b| b.actions.clear());
    invalid(&|b| b.actions[0].cmx = [0xff; 32]);
    invalid(&|b| b.actions[0].rk = [0; 32]);
    invalid(&|b| b.value_balance = i64::MIN);
    invalid(&|b| b.anchor = [0xff; 32]);
    invalid(&|b| b.authorization.proof.push(0));
}

#[test]
fn an_earlier_circuit_cannot_verify_a_restricted_bundle() {
    for circuit in [
        ironwood::pczt::tx_extractor::CircuitVersion::InsecurePreNu6_2,
        ironwood::pczt::tx_extractor::CircuitVersion::FixedPostNu6_2,
    ] {
        let bundle = made_up_bundle();
        assert!(!bundle.flags.cross_address_enabled);
        let version = BundleVersion::OrchardV3;
        let r = ironwood::pczt::tx_extractor::verify_bundle(&bundle, version, None, circuit, [6; 32]);
        assert!(matches!(r, Err(ExtractorError::InvalidProof)));
        let r =
            ironwood::pczt::tx_extractor::verify_any_bundle(&bundle, version, None, circuit, [6; 32]);
        assert!(matches!(r, Some(Err(ExtractorError::InvalidProof))));
    }
}

#[test]
fn a_sum_of_zero_is_passed_on_without_a_sign() {
    assert_eq!(v6().orchard.value_sum, (0, true));
    for (sum, passed_on) in [
        ((0, true), (0, false)),
        ((0, false), (0, false)),
        ((3, true), (3, true)),
        ((3, false), (3, false)),
    ] {
        let pczt = || {
            let mut pczt = v6();
            pczt.orchard.value_sum = sum;
            pczt.ironwood.value_sum = sum;
            pczt
        };
        let verified = Verifier::new(pczt())
            .with_orchard::<u8, _>(|bundle| {
                assert_eq!(bundle.value_sum, passed_on);
                Ok(())
            })
            .unwrap_or_else(|_| panic!("the bundle can be parsed"))
            .finish();
        assert_eq!(verified.orchard.value_sum, passed_on);
        assert_eq!(verified.ironwood.value_sum, sum);
        let signed = Signer::new(pczt())
            .sign_ironwood_with::<SignError, _>(|_, bundle, _| {
                assert_eq!(bundle.value_sum, passed_on);
                Ok(())
            })
            .unwrap_or_else(|_| panic!("the bundle can be signed"))
            .finish();
        assert_eq!(signed.ironwood.value_sum, passed_on);
        assert_eq!(signed.orchard.value_sum, sum);
        let proved = add_proof(pczt().orchard, Ok(None)).unwrap_or_else(|_| panic!("added"));
        assert_eq!(proved.value_sum, passed_on);
    }
}
