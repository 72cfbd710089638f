//! Fees and change.

use ironwood::consensus::{NetworkType, Params};
use ironwood::fees::balance::{single_pool_output_balance, SinglePoolBalanceConfig};
use ironwood::fees::common::{
    calculate_net_flows, NetFlows, orchard_action_count, orchard_action_count_from_parts,
    select_change_pool, OutputManifest,
};
use ironwood::fees::dust::check_for_uneconomic_inputs;
use ironwood::fees::orchard::{BundleView, EmptyBundleView, NoteInput};
use ironwood::fees::sapling;
use ironwood::fees::zip317::{FeeError, Zip317, GRACE_ACTIONS, MARGINAL_FEE, MINIMUM_FEE};
use ironwood::fees::{
    missing_note_count, AccountMeta, ChangeError, ChangeValue, DustAction, DustOutputPolicy,
    EphemeralBalance, FeeRule, InputSize, MemoBytes, OutPoint, SplitPolicy, StrategyError,
    TransactionBalance, TransparentInput, TransparentOutput,
};
use ironwood::pool::{BundleVersion, ShieldedProtocol};
use ironwood::value::{BalanceError, Zatoshis, COIN, MAX_MONEY};

type Change = Result<TransactionBalance, ChangeError<FeeError, u32>>;

fn zat(value: u64) -> Zatoshis {
    Zatoshis::const_from_u64(value)
}

/// A network on which the given upgrades are active from the start.
fn network(nu6_3: bool) -> Params {
    let start = Some(100_000);
    Params {
        network: NetworkType::Regtest,
        overwinter: Some(1),
        sapling: start,
        blossom: start,
        heartwood: start,
        canopy: start,
        nu5: start,
        nu6: start,
        nu6_1: if nu6_3 { start } else { None },
        nu6_2: if nu6_3 { start } else { None },
        nu6_3: if nu6_3 { start } else { None },
        nu7: None,
    }
}

fn orchard_note(note_id: u32, value: u64) -> NoteInput<u32> {
    NoteInput { note_id, value: zat(value), ironwood: false }
}

fn ironwood_note(note_id: u32, value: u64) -> NoteInput<u32> {
    NoteInput { note_id, value: zat(value), ironwood: true }
}

fn sapling_bundle(inputs: &[(u32, u64)], outputs: &[u64]) -> sapling::BundleView<u32> {
    sapling::BundleView {
        bundle_type: sapling::BundleType::Transactional { bundle_required: false },
        inputs: inputs
            .iter()
            .map(|(note_id, value)| sapling::NoteInput { note_id: *note_id, value: zat(*value) })
            .collect(),
        outputs: outputs.iter().map(|v| zat(*v)).collect(),
    }
}

struct Scenario {
    params: Params,
    dust: DustOutputPolicy,
    split: SplitPolicy,
    fallback: ShieldedProtocol,
    meta: Option<AccountMeta>,
    transparent_inputs: Vec<TransparentInput>,
    transparent_outputs: Vec<TransparentOutput>,
    sapling: sapling::BundleView<u32>,
    orchard_inputs: Vec<NoteInput<u32>>,
    orchard_outputs: Vec<Zatoshis>,
    memo: Option<MemoBytes>,
    ephemeral: Option<EphemeralBalance>,
    legacy: bool,
}

fn scenario() -> Scenario {
    Scenario {
        params: network(false),
        dust: DustOutputPolicy { action: DustAction::Reject, dust_threshold: None },
        split: SplitPolicy { target_output_count: 1, min_split_output_value: None },
        fallback: ShieldedProtocol::Orchard,
        meta: None,
        transparent_inputs: vec![],
        transparent_outputs: vec![],
        sapling: sapling_bundle(&[], &[]),
        orchard_inputs: vec![],
        orchard_outputs: vec![],
        memo: None,
        ephemeral: None,
        legacy: false,
    }
}

fn balance(s: &Scenario) -> Change {
    single_pool_output_balance(
        SinglePoolBalanceConfig::new(
            &s.params,
            &Zip317,
            &s.dust,
            zat(MARGINAL_FEE),
            &s.split,
            s.fallback,
            zat(MARGINAL_FEE),
            GRACE_ACTIONS,
            s.legacy,
        ),
        s.meta.as_ref(),
        100_010,
        &s.transparent_inputs,
        &s.transparent_outputs,
        &s.sapling,
        &(&s.orchard_inputs[..], &s.orchard_outputs[..]),
        s.memo.as_ref(),
        s.ephemeral,
    )
}

fn shielded(protocol: ShieldedProtocol, value: u64, memo: Option<MemoBytes>) -> ChangeValue {
    ChangeValue::Shielded { protocol, value: zat(value), memo }
}

#[test]
fn send_single_step_proposed_transfer() {
    let mut memo = MemoBytes { bytes: [0; 512] };
    memo.bytes[..16].copy_from_slice(b"Test change memo");
    let mut s = scenario();
    s.orchard_inputs = vec![orchard_note(0, 60000)];
    s.orchard_outputs = vec![zat(10000)];
    s.memo = Some(memo);

    let balance = balance(&s).unwrap();
    assert_eq!(balance.fee_required(), zat(MINIMUM_FEE));
    assert_eq!(
        balance.proposed_change(),
        &[shielded(ShieldedProtocol::Orchard, 40000, Some(memo))]
    );
    assert_eq!(balance.total(), zat(50000));
}

#[test]
fn pool_crossing_required() {
    let mut s = scenario();
    s.orchard_inputs = vec![orchard_note(0, 350000)];
    s.sapling = sapling_bundle(&[], &[200000]);

    let balance = balance(&s).unwrap();
    assert_eq!(balance.fee_required(), zat(20000));
    assert_eq!(
        balance.proposed_change(),
        &[shielded(ShieldedProtocol::Orchard, 130000, None)]
    );
}

#[test]
fn fully_funded_fully_private() {
    let mut s = scenario();
    s.sapling = sapling_bundle(&[(0, 350000)], &[200000]);

    let balance = balance(&s).unwrap();
    assert_eq!(balance.fee_required(), zat(10000));
    assert_eq!(
        balance.proposed_change(),
        &[shielded(ShieldedProtocol::Sapling, 140000, None)]
    );
}

#[test]
fn change_to_ironwood_needs_its_own_actions() {
    let mut s = scenario();
    s.params = network(true);
    s.orchard_inputs = vec![orchard_note(0, 100000)];
    s.orchard_outputs = vec![zat(10000)];
    let after = balance(&s).unwrap();
    // One action for the spend, padded to two; the payment and the change go to Ironwood.
    assert_eq!(after.fee_required(), zat(20000));
    assert_eq!(
        after.proposed_change(),
        &[shielded(ShieldedProtocol::Orchard, 70000, None)]
    );

    s.legacy = true;
    let legacy = balance(&s).unwrap();
    // The spend and both outputs are in the Orchard pool, where they cannot share actions.
    assert_eq!(legacy.fee_required(), zat(15000));

    s.legacy = false;
    s.orchard_inputs = vec![ironwood_note(0, 100000)];
    assert_eq!(balance(&s).unwrap().fee_required(), zat(10000));
}

#[test]
fn funds_must_suffice() {
    let mut s = scenario();
    s.orchard_inputs = vec![orchard_note(0, 19999)];
    s.orchard_outputs = vec![zat(10000)];
    match balance(&s) {
        Err(ChangeError::InsufficientFunds { available, required }) => {
            assert_eq!(available, zat(19999));
            assert_eq!(required, zat(20000));
        }
        other => panic!("unexpected: {:?}", other),
    }
}

#[test]
fn exact_funds_leave_a_change_output_without_value() {
    let mut s = scenario();
    s.orchard_inputs = vec![orchard_note(0, 20000)];
    s.orchard_outputs = vec![zat(10000)];
    let balance = balance(&s).unwrap();
    assert_eq!(balance.fee_required(), zat(10000));
    assert_eq!(
        balance.proposed_change(),
        &[shielded(ShieldedProtocol::Orchard, 0, None)]
    );
}

#[test]
fn dust_change() {
    let mut s = scenario();
    s.orchard_inputs = vec![orchard_note(0, 24000)];
    s.orchard_outputs = vec![zat(10000)];
    match balance(&s) {
        Err(ChangeError::InsufficientFunds { available, required }) => {
            assert_eq!(available, zat(24000));
            assert_eq!(required, zat(25000));
        }
        other => panic!("unexpected: {:?}", other),
    }

    s.dust.action = DustAction::AllowDustChange;
    let allowed = balance(&s).unwrap();
    assert_eq!(allowed.fee_required(), zat(10000));
    assert_eq!(
        allowed.proposed_change(),
        &[shielded(ShieldedProtocol::Orchard, 4000, None)]
    );

    s.dust.action = DustAction::AddDustToFee;
    let added = balance(&s).unwrap();
    assert_eq!(added.fee_required(), zat(14000));
    assert!(added.proposed_change().is_empty());
    s.memo = Some(MemoBytes { bytes: [0; 512] });
    assert_eq!(
        balance(&s).unwrap().proposed_change(),
        &[shielded(ShieldedProtocol::Orchard, 0, s.memo)]
    );
    s.memo = None;

    s.dust = DustOutputPolicy { action: DustAction::Reject, dust_threshold: Some(zat(4000)) };
    assert_eq!(balance(&s).unwrap().fee_required(), zat(10000));
}

#[test]
fn uneconomic_inputs_are_reported() {
    let mut s = scenario();
    s.orchard_inputs = vec![
        orchard_note(7, 60000),
        orchard_note(8, 5000),
        orchard_note(9, 5000),
        orchard_note(10, 4000),
    ];
    s.orchard_outputs = vec![zat(10000)];
    match balance(&s) {
        Err(ChangeError::DustInputs { transparent, sapling, orchard }) => {
            assert!(transparent.is_empty());
            assert!(sapling.is_empty());
            assert!(!orchard.is_empty());
            assert!(!orchard.contains(&7));
        }
        other => panic!("unexpected: {:?}", other),
    }
}

#[test]
fn change_is_split() {
    let mut s = scenario();
    s.split = SplitPolicy { target_output_count: 4, min_split_output_value: Some(zat(10000)) };
    s.meta = Some(AccountMeta { total_note_count: Some(1), total_value: Some(zat(0)) });
    s.orchard_inputs = vec![orchard_note(0, 100000)];
    s.orchard_outputs = vec![zat(10000)];
    let balance = balance(&s).unwrap();
    // The payment and three parts of the change need four actions.
    assert_eq!(balance.fee_required(), zat(20000));
    let values: Vec<u64> =
        balance.proposed_change().iter().map(|c| c.value().into_u64()).collect();
    assert_eq!(values.iter().sum::<u64>(), 70000);
    assert_eq!(values.len(), 3);
}

#[test]
fn amounts_stay_in_range() {
    let mut s = scenario();
    s.orchard_inputs = vec![orchard_note(0, MAX_MONEY), orchard_note(1, 1)];
    s.orchard_outputs = vec![zat(10000)];
    assert!(matches!(
        balance(&s),
        Err(ChangeError::StrategyError(StrategyError::Balance(BalanceError::Overflow)))
    ));
}

#[test]
fn unknown_input_sizes_are_reported() {
    let outpoint = OutPoint { hash: [3; 32], n: 1 };
    let mut s = scenario();
    s.transparent_inputs = vec![TransparentInput {
        outpoint,
        value: zat(100000),
        size: InputSize::Unknown(outpoint),
    }];
    s.orchard_outputs = vec![zat(10000)];
    match balance(&s) {
        Err(ChangeError::StrategyError(StrategyError::Fee(FeeError::UnknownP2shInputs(found)))) => {
            assert_eq!(found, vec![outpoint]);
        }
        other => panic!("unexpected: {:?}", other),
    }
}

#[test]
fn zip317_fees() {
    let params = network(false);
    let fee = |t_in: &[InputSize], t_out: &[usize], s_in, s_out, actions| {
        Zip317.fee_required(&params, 100_010, t_in, t_out, s_in, s_out, actions)
    };
    assert_eq!(fee(&[], &[], 0, 0, 0).unwrap(), zat(10_000));
    assert_eq!(fee(&[], &[], 1, 2, 0).unwrap(), zat(10_000));
    assert_eq!(fee(&[], &[], 1, 2, 2).unwrap(), zat(20_000));
    assert_eq!(fee(&[InputSize::Known(150), InputSize::Known(150)], &[34], 0, 2, 0).unwrap(), zat(20_000));
    assert_eq!(fee(&[InputSize::Known(151)], &[34, 35], 0, 0, 0).unwrap(), zat(15_000));
    assert!(fee(&[], &[], usize::MAX, 0, 0).is_err());
}

#[test]
fn ephemeral_outputs() {
    let mut s = scenario();
    s.orchard_inputs = vec![orchard_note(0, 100000)];
    s.ephemeral = Some(EphemeralBalance::Output(zat(30000)));
    s.memo = Some(MemoBytes { bytes: [1; 512] });
    let first = balance(&s).unwrap();
    assert_eq!(
        first.proposed_change(),
        &[
            shielded(ShieldedProtocol::Orchard, 55000, s.memo),
            ChangeValue::EphemeralTransparent { value: zat(30000) },
        ]
    );
    assert_eq!(first.fee_required(), zat(15000));
    assert_eq!(first.total(), zat(100000));
}

#[test]
fn change_pools() {
    let flows = |sapling: &sapling::BundleView<u32>, orchard: &[NoteInput<u32>], out: &[Zatoshis]| {
        calculate_net_flows::<u32, FeeError, _>(&[], &[], sapling, &(orchard, out), None).unwrap()
    };
    let empty = sapling_bundle(&[], &[]);
    let fallback = ShieldedProtocol::Sapling;
    let pool = |f: NetFlows| select_change_pool(&f, fallback);
    assert_eq!(pool(flows(&empty, &[orchard_note(0, 1)], &[])), ShieldedProtocol::Orchard);
    assert_eq!(
        pool(flows(&sapling_bundle(&[(0, 5)], &[]), &[], &[])),
        ShieldedProtocol::Sapling
    );
    assert_eq!(
        pool(flows(&sapling_bundle(&[(0, 5)], &[]), &[orchard_note(1, 1)], &[])),
        ShieldedProtocol::Orchard
    );
    assert!(flows(&empty, &[], &[]).is_transparent());
    let f = flows(&sapling_bundle(&[(0, 5)], &[1]), &[orchard_note(1, 2)], &[zat(3)]);
    assert_eq!(f.total_in().unwrap(), zat(7));
    assert_eq!(f.total_out().unwrap(), zat(4));
}

#[test]
fn action_counts() {
    let count = |version, oi, ii, oo, io| {
        orchard_action_count_from_parts::<FeeError, u32>(version, oi, ii, oo, io)
    };
    assert_eq!(count(BundleVersion::OrchardV2, 0, 0, 0, 0).unwrap(), 0);
    assert_eq!(count(BundleVersion::OrchardV2, 1, 0, 0, 0).unwrap(), 2);
    assert_eq!(count(BundleVersion::OrchardV2, 3, 0, 2, 0).unwrap(), 3);
    assert_eq!(count(BundleVersion::OrchardV3, 3, 0, 2, 0).unwrap(), 5);
    assert_eq!(count(BundleVersion::OrchardV3, 1, 1, 0, 2).unwrap(), 4);
    match count(BundleVersion::OrchardV3, usize::MAX, 0, 1, 0) {
        Err(ChangeError::BundleError(message)) => {
            assert_eq!(message, "num_spends + num_outputs overflowed")
        }
        other => panic!("unexpected: {:?}", other),
    }
    match count(BundleVersion::OrchardV2, usize::MAX, 2, 1, 0) {
        Err(ChangeError::BundleError(message)) => {
            assert_eq!(message, "Orchard action count overflowed.")
        }
        other => panic!("unexpected: {:?}", other),
    }
    let notes = [orchard_note(0, 1), ironwood_note(1, 1)];
    let none: [Zatoshis; 0] = [];
    assert_eq!(
        orchard_action_count::<u32, FeeError, _>(
            BundleVersion::OrchardV3,
            &(&notes[..], &none[..]),
            0,
            1
        )
        .unwrap(),
        4
    );
}

#[test]
fn an_empty_view_has_no_notes() {
    let inputs: &[NoteInput<u32>] = BundleView::<u32>::inputs(&EmptyBundleView);
    assert!(inputs.is_empty());
    assert!(BundleView::<u32>::outputs(&EmptyBundleView).is_empty());
}

#[test]
fn manifests() {
    let zero = OutputManifest::zero();
    assert_eq!(zero.total_shielded(), 0);
    let sapling = OutputManifest::shielded_change(ShieldedProtocol::Sapling, 3, true);
    assert_eq!((sapling.sapling(), sapling.orchard(), sapling.ironwood()), (3, 0, 0));
    let orchard = OutputManifest::shielded_change(ShieldedProtocol::Orchard, 3, false);
    assert_eq!((orchard.sapling(), orchard.orchard(), orchard.ironwood()), (0, 3, 0));
    let ironwood = OutputManifest::shielded_change(ShieldedProtocol::Orchard, 3, true);
    assert_eq!((ironwood.sapling(), ironwood.orchard(), ironwood.ironwood()), (0, 0, 3));
}

#[test]
fn valuable_inputs_are_never_dust() {
    let notes = [orchard_note(0, 5001), orchard_note(1, 5001), orchard_note(2, 5001)];
    let outputs: [Zatoshis; 0] = [];
    let r = check_for_uneconomic_inputs::<u32, FeeError, _>(
        &[],
        &[],
        &sapling_bundle(&[], &[]),
        &(&notes[..], &outputs[..]),
        BundleVersion::OrchardV2,
        false,
        zat(MARGINAL_FEE),
        GRACE_ACTIONS,
        &[OutputManifest::zero()],
        None,
    );
    assert!(r.is_ok());
}

#[test]
fn missing_notes() {
    assert_eq!(missing_note_count(4, Some(1)), 3);
    assert_eq!(missing_note_count(4, None), 1);
    assert_eq!(missing_note_count(4, Some(9)), 1);
}

#[test]
fn amounts() {
    assert_eq!(COIN, 100_000_000);
    assert_eq!(MAX_MONEY, 21_000_000 * COIN);
    assert!(Zatoshis::from_u64(MAX_MONEY).is_ok());
    assert!(matches!(Zatoshis::from_u64(MAX_MONEY + 1), Err(BalanceError::Overflow)));
    assert_eq!(zat(2).checked_plus(zat(3)), Some(zat(5)));
    assert_eq!(zat(MAX_MONEY).checked_plus(zat(1)), None);
    assert_eq!(zat(2).checked_minus(zat(3)), None);
    assert_eq!(zat(3).checked_minus(zat(3)), Some(zat(0)));
    assert_eq!(zat(3).checked_times(4), Some(zat(12)));
    assert_eq!(zat(MAX_MONEY).checked_times(2), None);
    let parts = zat(17).div_with_remainder(5);
    assert_eq!((parts.quotient, parts.remainder), (zat(3), zat(2)));
    assert!(Zatoshis::zero().is_zero());
    assert!(zat(1).is_positive());
}

#[test]
fn the_fee_covers_the_change_that_is_made() {
    let mut s = scenario();
    s.split = SplitPolicy { target_output_count: 4, min_split_output_value: Some(zat(30000)) };
    s.meta = Some(AccountMeta { total_note_count: Some(0), total_value: Some(zat(0)) });
    s.orchard_inputs = vec![orchard_note(0, 100000)];
    s.orchard_outputs = vec![zat(10000)];
    let balance = balance(&s).unwrap();
    let outputs = 1 + balance.proposed_change().len();
    assert_eq!(balance.proposed_change().len(), 2);
    let asked = Zip317.fee_required(&s.params, 100_010, &[], &[], 0, 0, outputs).unwrap();
    assert_eq!(balance.fee_required(), asked);
    let change: u64 = balance.proposed_change().iter().map(|c| c.value().into_u64()).sum();
    assert_eq!(change + balance.fee_required().into_u64() + 10000, 100000);
}

#[test]
fn inputs_must_be_economic_under_every_change() {
    let notes = [orchard_note(0, 5000), orchard_note(1, 5000), orchard_note(2, 5000)];
    let outputs: [Zatoshis; 0] = [];
    let check = |possible_change: &[OutputManifest]| {
        check_for_uneconomic_inputs::<u32, FeeError, _>(
            &[],
            &[],
            &sapling_bundle(&[], &[]),
            &(&notes[..], &outputs[..]),
            BundleVersion::OrchardV2,
            false,
            zat(MARGINAL_FEE),
            GRACE_ACTIONS,
            possible_change,
            None,
        )
    };
    let three = || OutputManifest::shielded_change(ShieldedProtocol::Orchard, 3, false);
    let four = || OutputManifest::shielded_change(ShieldedProtocol::Orchard, 4, false);
    assert!(check(&[three()]).is_ok());
    assert!(check(&[four()]).is_ok());
    assert!(check(&[three(), four()]).is_ok());
    assert!(matches!(check(&[OutputManifest::zero()]), Err(ChangeError::DustInputs { .. })));
    for joined in [
        vec![three(), OutputManifest::zero()],
        vec![OutputManifest::zero(), three()],
        vec![three(), OutputManifest::zero(), four()],
    ] {
        assert!(matches!(check(&joined), Err(ChangeError::DustInputs { .. })));
    }
}

#[test]
fn without_dust_no_change_is_looked_at() {
    let notes = [orchard_note(0, 5001)];
    let outputs: [Zatoshis; 0] = [];
    let r = check_for_uneconomic_inputs::<u32, FeeError, _>(
        &[],
        &[],
        &sapling_bundle(&[], &[]),
        &(&notes[..], &outputs[..]),
        BundleVersion::OrchardV2,
        false,
        zat(MARGINAL_FEE),
        GRACE_ACTIONS,
        &[],
        None,
    );
    assert!(r.is_ok());
}
