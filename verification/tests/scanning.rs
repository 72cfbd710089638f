//! Scanning of compact blocks.

use ironwood::consensus::Params;
use ironwood::pool::NoteVersion;
use ironwood::scanning::batch::BatchRunners;
use ironwood::scanning::compact::{
    ChainMetadata, CompactBlock, CompactOrchardAction, CompactSaplingOutput, CompactSaplingSpend,
    CompactTx,
};
use ironwood::scanning::pools::{AccountId, AccountKeys, SaplingNoteForm, ScanningKeys, Scope};
use ironwood::scanning::scan::{
    scan_block, scan_block_with_runners, Marking, Nullifiers, Retention, ScannedBlock,
    TrackedNullifier,
};
use ironwood::scanning::{BlockMetadata, NoteCommitmentTree, ScanError};

use orchard::keys::{FullViewingKey as OrchardFvk, SpendingKey as OrchardSk};
use orchard::note::{ExtractedNoteCommitment, RandomSeed, Rho};
use orchard::note_encryption::{
    IronwoodDomain, IronwoodNoteEncryption, OrchardDomain, OrchardNoteEncryption,
};
use rand::rand_core::UnwrapErr;
use rand::rngs::SysRng;
use rand::Rng;
use sapling_crypto::note_encryption::{sapling_note_encryption, SaplingDomain, Zip212Enforcement};
use sapling_crypto::util::generate_random_rseed;
use sapling_crypto::zip32::{DiversifiableFullViewingKey, ExtendedSpendingKey};
use zcash_note_encryption::Domain;
use zip32::ChildIndex;

const EMPTY_MEMO: [u8; 512] = {
    let mut memo = [0; 512];
    memo[0] = 0xf6;
    memo
};

fn sapling_key(account: u32) -> DiversifiableFullViewingKey {
    let master = ExtendedSpendingKey::master(&[0u8; 32]).unwrap();
    let path = [
        ChildIndex::hardened(32),
        ChildIndex::hardened(1),
        ChildIndex::hardened(account),
    ];
    ExtendedSpendingKey::from_path(&master, &path)
        .unwrap()
        .to_diversifiable_full_viewing_key()
}

fn orchard_key(account: u32) -> OrchardFvk {
    let sk = OrchardSk::from_zip32_seed(&[0u8; 32], 1, zip32::AccountId::try_from(account).unwrap())
        .unwrap();
    OrchardFvk::from(&sk)
}

fn scanning_keys(account: AccountId) -> ScanningKeys {
    ScanningKeys::from_account_keys(&vec![AccountKeys {
        account,
        sapling: Some(sapling_key(account).to_bytes()),
        orchard: Some(orchard_key(account).to_bytes()),
    }])
    .unwrap()
}

fn no_nullifiers() -> Nullifiers {
    Nullifiers { sapling: vec![], orchard: vec![] }
}

fn metadata(height: u32, hash: [u8; 32], sizes: (u32, u32, u32)) -> BlockMetadata {
    BlockMetadata {
        block_height: height,
        block_hash: hash,
        sapling_tree_size: Some(sizes.0),
        orchard_tree_size: Some(sizes.1),
        ironwood_tree_size: Some(sizes.2),
    }
}

fn random_field_element<R: Rng>(rng: &mut R) -> Vec<u8> {
    let mut bytes = vec![0; 32];
    rng.fill_bytes(&mut bytes);
    bytes[31] &= 0x3f;
    bytes
}

fn random_bytes<R: Rng>(rng: &mut R, n: usize) -> Vec<u8> {
    let mut bytes = vec![0; n];
    rng.fill_bytes(&mut bytes);
    bytes
}

fn transaction(index: u16) -> CompactTx {
    CompactTx {
        index,
        txid: [index as u8 + 1; 32],
        spends: vec![],
        outputs: vec![],
        actions: vec![],
        ironwood_actions: vec![],
    }
}

/// A transaction with one Sapling spend and one output that nobody here can decrypt.
fn random_compact_tx(index: u16) -> CompactTx {
    let mut rng = UnwrapErr(SysRng);
    let mut tx = transaction(index);
    tx.spends.push(CompactSaplingSpend { nf: random_bytes(&mut rng, 32) });
    tx.outputs.push(CompactSaplingOutput {
        cmu: random_field_element(&mut rng),
        ephemeral_key: random_bytes(&mut rng, 32),
        ciphertext: random_bytes(&mut rng, 52),
    });
    tx
}

/// An output to the default address of a key, from before ZIP 212.
fn sapling_output(dfvk: &DiversifiableFullViewingKey, value: u64) -> CompactSaplingOutput {
    sapling_note_to(dfvk, dfvk.default_address().1, value, Zip212Enforcement::Off).1
}

fn sapling_note_to(
    dfvk: &DiversifiableFullViewingKey,
    to: sapling_crypto::PaymentAddress,
    value: u64,
    zip212: Zip212Enforcement,
) -> (sapling_crypto::Note, CompactSaplingOutput) {
    let mut rng = UnwrapErr(SysRng);
    let rseed = generate_random_rseed(zip212, &mut rng);
    let note = sapling_crypto::Note::from_parts(
        to,
        sapling_crypto::value::NoteValue::from_raw(value),
        rseed,
    );
    let encryptor = sapling_note_encryption(
        Some(dfvk.fvk().ovk),
        note.clone(),
        EMPTY_MEMO,
        &mut rng,
    );
    let output = CompactSaplingOutput {
        cmu: note.cmu().to_bytes().to_vec(),
        ephemeral_key: SaplingDomain::epk_bytes(encryptor.epk()).0.to_vec(),
        ciphertext: encryptor.encrypt_note_plaintext().as_ref()[..52].to_vec(),
    };
    (note, output)
}

/// A block with a random transaction, one with a spend and an output to the key, and perhaps
/// another random one.
fn fake_compact_block(
    height: u32,
    prev_hash: [u8; 32],
    nf: [u8; 32],
    dfvk: &DiversifiableFullViewingKey,
    value: u64,
    tx_after: bool,
    initial_tree_sizes: Option<(u32, u32)>,
) -> CompactBlock {
    let mut vtx = vec![random_compact_tx(0)];
    let mut tx = transaction(1);
    tx.spends.push(CompactSaplingSpend { nf: nf.to_vec() });
    tx.outputs.push(sapling_output(dfvk, value));
    vtx.push(tx);
    if tx_after {
        vtx.push(random_compact_tx(2));
    }
    let outputs = vtx.len() as u32;
    CompactBlock {
        height,
        hash: [9; 32],
        prev_hash,
        time: 0,
        vtx,
        chain_metadata: initial_tree_sizes.map(|(sapling, orchard)| ChainMetadata {
            sapling_commitment_tree_size: sapling + outputs,
            orchard_commitment_tree_size: orchard,
            ironwood_commitment_tree_size: 0,
        }),
    }
}

fn runners_for(block: &CompactBlock, keys: &ScanningKeys) -> BatchRunners {
    let mut runners = BatchRunners::for_keys(10, keys);
    runners.add_block(&Params::test_network(), block).unwrap();
    runners.flush();
    runners
}

fn retentions(commitments: &[ironwood::scanning::scan::Commitment]) -> Vec<Retention> {
    commitments.iter().map(|c| c.retention).collect()
}

#[test]
fn scan_block_with_my_tx() {
    for scan_multithreaded in [false, true] {
        let network = Params::test_network();
        let dfvk = sapling_key(0);
        let keys = scanning_keys(0);
        let cb = fake_compact_block(1, [0; 32], [0; 32], &dfvk, 5, false, None);
        assert_eq!(cb.vtx.len(), 2);

        let mut runners = if scan_multithreaded {
            Some(runners_for(&cb, &keys))
        } else {
            None
        };
        let scanned_block = scan_block_with_runners(
            &network,
            &cb,
            &keys,
            &no_nullifiers(),
            Some(&metadata(0, [0; 32], (0, 0, 0))),
            runners.as_mut(),
        )
        .unwrap();

        let txs = &scanned_block.transactions;
        assert_eq!(txs.len(), 1);
        let tx = &txs[0];
        assert_eq!(tx.block_index, 1);
        assert_eq!(tx.sapling_spends.len(), 0);
        assert_eq!(tx.sapling_outputs.len(), 1);
        assert_eq!(tx.sapling_outputs[0].index, 0);
        assert_eq!(tx.sapling_outputs[0].account, 0);
        assert_eq!(tx.sapling_outputs[0].note.value, 5);
        assert_eq!(tx.sapling_outputs[0].note_commitment_tree_position, 1);
        assert_eq!(tx.sapling_outputs[0].recipient_key_scope, Scope::External);
        assert!(!tx.sapling_outputs[0].is_change);

        assert_eq!(scanned_block.sapling.final_tree_size, 2);
        assert_eq!(
            retentions(&scanned_block.sapling.commitments),
            vec![
                Retention::Ephemeral,
                Retention::Checkpoint { id: 1, marking: Marking::Marked },
            ]
        );
    }
}

#[test]
fn scan_block_with_txs_after_my_tx() {
    for scan_multithreaded in [false, true] {
        let network = Params::test_network();
        let dfvk = sapling_key(0);
        let keys = scanning_keys(0);
        let cb = fake_compact_block(1, [0; 32], [0; 32], &dfvk, 5, true, Some((0, 0)));
        assert_eq!(cb.vtx.len(), 3);

        let mut runners = if scan_multithreaded {
            Some(runners_for(&cb, &keys))
        } else {
            None
        };
        let scanned_block = scan_block_with_runners(
            &network,
            &cb,
            &keys,
            &no_nullifiers(),
            None,
            runners.as_mut(),
        )
        .unwrap();

        let txs = &scanned_block.transactions;
        assert_eq!(txs.len(), 1);
        let tx = &txs[0];
        assert_eq!(tx.block_index, 1);
        assert_eq!(tx.sapling_spends.len(), 0);
        assert_eq!(tx.sapling_outputs.len(), 1);
        assert_eq!(tx.sapling_outputs[0].index, 0);
        assert_eq!(tx.sapling_outputs[0].account, 0);
        assert_eq!(tx.sapling_outputs[0].note.value, 5);

        assert_eq!(
            retentions(&scanned_block.sapling.commitments),
            vec![
                Retention::Ephemeral,
                Retention::Marked,
                Retention::Checkpoint { id: 1, marking: Marking::Unmarked },
            ]
        );
    }
}

#[test]
fn scan_block_with_my_spend() {
    let network = Params::test_network();
    let account: AccountId = 12;
    let nf = [7; 32];
    let nullifiers = Nullifiers {
        sapling: vec![TrackedNullifier { account, nf }],
        orchard: vec![],
    };
    let cb = fake_compact_block(1, [0; 32], nf, &sapling_key(12), 5, false, Some((0, 0)));
    assert_eq!(cb.vtx.len(), 2);

    let scanned_block =
        scan_block(&network, &cb, &ScanningKeys::empty(), &nullifiers, None).unwrap();
    let txs = &scanned_block.transactions;
    assert_eq!(txs.len(), 1);
    let tx = &txs[0];
    assert_eq!(tx.block_index, 1);
    assert_eq!(tx.sapling_spends.len(), 1);
    assert_eq!(tx.sapling_outputs.len(), 0);
    assert_eq!(tx.sapling_spends[0].index, 0);
    assert_eq!(tx.sapling_spends[0].nf, nf);
    assert_eq!(tx.sapling_spends[0].account, account);

    assert_eq!(
        retentions(&scanned_block.sapling.commitments),
        vec![
            Retention::Ephemeral,
            Retention::Checkpoint { id: 1, marking: Marking::Unmarked },
        ]
    );
}

fn block_of(tx: Option<CompactTx>, chain_metadata: Option<ChainMetadata>) -> CompactBlock {
    CompactBlock {
        height: 1,
        hash: [0; 32],
        prev_hash: [1; 32],
        time: 0,
        vtx: tx.into_iter().collect(),
        chain_metadata,
    }
}

fn ironwood_size(size: u32) -> Option<ChainMetadata> {
    Some(ChainMetadata {
        sapling_commitment_tree_size: 0,
        orchard_commitment_tree_size: 0,
        ironwood_commitment_tree_size: size,
    })
}

fn action(nullifier: Vec<u8>, cmx: Vec<u8>) -> CompactOrchardAction {
    CompactOrchardAction {
        nullifier,
        cmx,
        ephemeral_key: vec![5; 32],
        ciphertext: vec![6; 52],
    }
}

fn malformed_ironwood_action_block() -> CompactBlock {
    let mut tx = transaction(0);
    tx.txid = [2; 32];
    tx.ironwood_actions.push(action(vec![3; 32], vec![4; 31]));
    block_of(Some(tx), ironwood_size(1))
}

fn malformed_ironwood_nullifier_block() -> CompactBlock {
    let mut tx = transaction(0);
    tx.txid = [2; 32];
    tx.ironwood_actions.push(action(vec![3; 31], vec![4; 32]));
    block_of(Some(tx), ironwood_size(1))
}

fn malformed_orchard_nullifier_block() -> CompactBlock {
    let mut tx = transaction(0);
    tx.txid = [2; 32];
    tx.actions.push(action(vec![3; 31], vec![4; 32]));
    block_of(Some(tx), None)
}

fn malformed_sapling_spend_block() -> CompactBlock {
    let mut tx = transaction(0);
    tx.txid = [2; 32];
    tx.spends.push(CompactSaplingSpend { nf: vec![3; 31] });
    block_of(Some(tx), None)
}

fn malformed_sapling_output_block() -> CompactBlock {
    let mut tx = transaction(0);
    tx.txid = [2; 32];
    tx.outputs.push(CompactSaplingOutput {
        cmu: vec![3; 31],
        ephemeral_key: vec![4; 32],
        ciphertext: vec![5; 52],
    });
    block_of(Some(tx), None)
}

fn block_with_one_sapling_output() -> CompactBlock {
    let mut tx = transaction(0);
    tx.txid = [2; 32];
    tx.outputs.push(CompactSaplingOutput {
        cmu: vec![],
        ephemeral_key: vec![],
        ciphertext: vec![],
    });
    block_of(Some(tx), None)
}

fn scan_error(block: &CompactBlock, prior: Option<&BlockMetadata>) -> ScanError {
    match scan_block(
        &Params::test_network(),
        block,
        &ScanningKeys::empty(),
        &no_nullifiers(),
        prior,
    ) {
        Ok(_) => panic!("the block should not be scanned"),
        Err(e) => e,
    }
}

fn assert_decode_error(err: &ScanError, expected_tree: NoteCommitmentTree) {
    match err {
        ScanError::EncodingInvalid { tree, index, .. } => {
            assert_eq!(*tree, expected_tree);
            assert_eq!(*index, 0);
        }
        err => panic!("expected a compact decoding error, got {:?}", err),
    }
    assert!(err
        .to_string()
        .contains(&format!("{:?} compact item 0", expected_tree)));
}

#[test]
fn scan_block_reports_sapling_tree_size_overflow() {
    let err = scan_error(
        &block_with_one_sapling_output(),
        Some(&metadata(0, [1; 32], (u32::MAX, 0, 0))),
    );
    assert!(matches!(
        err,
        ScanError::TreeSizeOverflow { tree: NoteCommitmentTree::Sapling, .. }
    ));
}

#[test]
fn scan_block_reports_ironwood_tree_size_overflow() {
    let err = scan_error(
        &malformed_ironwood_action_block(),
        Some(&metadata(0, [1; 32], (0, 0, u32::MAX))),
    );
    assert!(matches!(
        err,
        ScanError::TreeSizeOverflow { tree: NoteCommitmentTree::Ironwood, .. }
    ));
}

#[test]
fn scan_block_reports_ironwood_tree_size_mismatch() {
    let err = scan_error(
        &block_of(None, ironwood_size(1)),
        Some(&metadata(0, [1; 32], (0, 0, 0))),
    );
    assert!(matches!(
        err,
        ScanError::TreeSizeMismatch {
            tree: NoteCommitmentTree::Ironwood,
            given: 1,
            computed: 0,
            ..
        }
    ));
}

#[test]
fn scan_block_reports_ironwood_tree_size_invalid() {
    let mut block = malformed_ironwood_action_block();
    block.chain_metadata.as_mut().unwrap().ironwood_commitment_tree_size = 0;
    let err = scan_error(&block, None);
    assert!(matches!(
        err,
        ScanError::TreeSizeInvalid { tree: NoteCommitmentTree::Ironwood, .. }
    ));
}

#[test]
fn scan_block_reports_ironwood_decode_error() {
    let err = scan_error(&malformed_ironwood_action_block(), None);
    assert_decode_error(&err, NoteCommitmentTree::Ironwood);
}

#[test]
fn batch_runners_report_ironwood_decode_error() {
    let mut runners = BatchRunners::for_keys(10, &ScanningKeys::empty());
    let err = runners
        .add_block(&Params::test_network(), &malformed_ironwood_action_block())
        .expect_err("malformed Ironwood action should fail decoding");
    assert_decode_error(&err, NoteCommitmentTree::Ironwood);
}

#[test]
fn scan_block_reports_malformed_sapling_spend_nullifier() {
    let err = scan_error(&malformed_sapling_spend_block(), None);
    assert_decode_error(&err, NoteCommitmentTree::Sapling);
}

#[test]
fn scan_block_reports_malformed_sapling_output_cmu() {
    let err = scan_error(&malformed_sapling_output_block(), None);
    assert_decode_error(&err, NoteCommitmentTree::Sapling);
}

#[test]
fn scan_block_reports_malformed_orchard_nullifier() {
    let err = scan_error(&malformed_orchard_nullifier_block(), None);
    assert_decode_error(&err, NoteCommitmentTree::Orchard);
}

#[test]
fn scan_block_reports_malformed_ironwood_nullifier() {
    let err = scan_error(&malformed_ironwood_nullifier_block(), None);
    assert_decode_error(&err, NoteCommitmentTree::Ironwood);
}

#[test]
fn batch_runners_report_malformed_ironwood_nullifier() {
    let mut runners = BatchRunners::for_keys(10, &ScanningKeys::empty());
    let err = runners
        .add_block(&Params::test_network(), &malformed_ironwood_nullifier_block())
        .expect_err("malformed Ironwood nullifier should fail decoding");
    assert_decode_error(&err, NoteCommitmentTree::Ironwood);
}

#[test]
fn scan_errors_in_words() {
    let tree = NoteCommitmentTree::Orchard;
    assert_eq!(
        ScanError::PrevHashMismatch { at_height: 12 }.to_string(),
        "The parent hash does not correspond to the block before height 12"
    );
    assert_eq!(
        ScanError::BlockHeightDiscontinuity { prev_height: 5, new_height: 1030 }.to_string(),
        "Block height discontinuity at height 1030; previous height was: 5"
    );
    assert_eq!(
        ScanError::TreeSizeMismatch { tree, at_height: 0, given: 7, computed: 4294967295 }
            .to_string(),
        "Orchard tree size mismatch at height 0; given 7, expected 4294967295"
    );
    assert_eq!(
        ScanError::TreeSizeUnknown { tree, at_height: 9 }.to_string(),
        "Orchard tree size unknown at height 9"
    );
    assert_eq!(
        ScanError::TreeSizeInvalid { tree, at_height: 10 }.to_string(),
        "Orchard tree size invalid at height 10"
    );
    assert_eq!(
        ScanError::TreeSizeOverflow { tree: NoteCommitmentTree::Ironwood, at_height: 99 }
            .to_string(),
        "Ironwood tree size overflow at height 99"
    );
}

#[test]
fn keys_that_are_none_are_refused() {
    assert!(ScanningKeys::from_account_keys(&vec![AccountKeys {
        account: 0,
        sapling: Some([0xff; 128]),
        orchard: None,
    }])
    .is_none());
    assert!(ScanningKeys::from_account_keys(&vec![AccountKeys {
        account: 0,
        sapling: None,
        orchard: Some([0xff; 96]),
    }])
    .is_none());
    let keys = scanning_keys(3);
    assert_eq!(keys.sapling().len(), 2);
    assert_eq!(keys.orchard().len(), 2);
    assert_eq!(keys.sapling()[0].scope, Scope::External);
    assert_eq!(keys.sapling()[1].scope, Scope::Internal);
}

/// A note that is sent to an Orchard key.
struct Sent {
    note: orchard::Note,
    action: CompactOrchardAction,
}

fn send_note(
    fvk: &OrchardFvk,
    scope: orchard::keys::Scope,
    value: u64,
    nullifier: [u8; 32],
    version: orchard::NoteVersion,
) -> Sent {
    let mut rng = UnwrapErr(SysRng);
    let rho = Rho::from_bytes(&nullifier).unwrap();
    let note = loop {
        let mut seed = [0; 32];
        rng.fill_bytes(&mut seed);
        if let Some(rseed) = RandomSeed::from_bytes(seed, &rho).into_option() {
            let note = orchard::Note::from_parts(
                fvk.address_at(0u32, scope),
                orchard::value::NoteValue::from_raw(value),
                rho,
                rseed,
                version,
            );
            if let Some(note) = note.into_option() {
                break note;
            }
        }
    };
    let ovk = Some(fvk.to_ovk(scope));
    let (ephemeral_key, ciphertext) = match version {
        orchard::NoteVersion::V3 => {
            let encryptor = IronwoodNoteEncryption::new(ovk, note, EMPTY_MEMO);
            (
                IronwoodDomain::epk_bytes(encryptor.epk()).0.to_vec(),
                encryptor.encrypt_note_plaintext().as_ref()[..52].to_vec(),
            )
        }
        _ => {
            let encryptor = OrchardNoteEncryption::new(ovk, note, EMPTY_MEMO);
            (
                OrchardDomain::epk_bytes(encryptor.epk()).0.to_vec(),
                encryptor.encrypt_note_plaintext().as_ref()[..52].to_vec(),
            )
        }
    };
    let cmx = ExtractedNoteCommitment::from(note.commitment()).to_bytes().to_vec();
    Sent {
        note,
        action: CompactOrchardAction {
            nullifier: nullifier.to_vec(),
            cmx,
            ephemeral_key,
            ciphertext,
        },
    }
}

const EXTERNAL: orchard::keys::Scope = orchard::keys::Scope::External;
const INTERNAL: orchard::keys::Scope = orchard::keys::Scope::Internal;
const V2: orchard::NoteVersion = orchard::NoteVersion::V2;
const V3: orchard::NoteVersion = orchard::NoteVersion::V3;

/// A block at a height, whose hash and that of the one before it follow from their heights, and
/// the metadata of the one before it.
fn chained(height: u32, vtx: Vec<CompactTx>, before: (u32, u32, u32)) -> (CompactBlock, BlockMetadata) {
    let block = CompactBlock {
        height,
        hash: [height as u8; 32],
        prev_hash: [height as u8 - 1; 32],
        time: 0,
        vtx,
        chain_metadata: None,
    };
    (block, metadata(height - 1, [height as u8 - 1; 32], before))
}

fn scan(
    (block, prior): &(CompactBlock, BlockMetadata),
    nullifiers: &Nullifiers,
) -> ScannedBlock {
    scan_block(&Params::test_network(), block, &scanning_keys(0), nullifiers, Some(prior)).unwrap()
}

fn orchard_total(blocks: &[&ScannedBlock]) -> u64 {
    blocks
        .iter()
        .flat_map(|b| b.transactions.iter())
        .flat_map(|tx| tx.orchard_outputs.iter())
        .map(|o| o.note.value)
        .sum()
}

fn paying(index: u16, sent: Sent) -> CompactTx {
    let mut tx = transaction(index);
    tx.actions.push(sent.action);
    tx
}

#[test]
fn valid_chain_states() {
    let fvk = orchard_key(0);
    let first = chained(1, vec![paying(0, send_note(&fvk, EXTERNAL, 5, [1; 32], V2))], (0, 0, 0));
    let second = chained(2, vec![paying(0, send_note(&fvk, EXTERNAL, 7, [2; 32], V2))], (0, 1, 0));
    let scanned = scan(&first, &no_nullifiers());
    assert_eq!(scanned.orchard.final_tree_size, 1);
    let scanned = scan(&second, &no_nullifiers());
    assert_eq!(scanned.orchard.final_tree_size, 2);
    assert_eq!(scanned.block_height, 2);
}

#[test]
fn invalid_chain_cache_disconnected() {
    let fvk = orchard_key(0);
    let first = chained(1, vec![paying(0, send_note(&fvk, EXTERNAL, 5, [1; 32], V2))], (0, 0, 0));
    let second = chained(2, vec![paying(0, send_note(&fvk, EXTERNAL, 7, [2; 32], V2))], (0, 1, 0));
    scan(&first, &no_nullifiers());
    scan(&second, &no_nullifiers());

    let (mut third, prior) =
        chained(3, vec![paying(0, send_note(&fvk, EXTERNAL, 8, [3; 32], V2))], (0, 2, 0));
    third.prev_hash = [1; 32];
    let err = scan_block(
        &Params::test_network(),
        &third,
        &scanning_keys(0),
        &no_nullifiers(),
        Some(&prior),
    )
    .err()
    .unwrap();
    assert!(matches!(err, ScanError::PrevHashMismatch { at_height: 3 }));

    let (fourth, _) =
        chained(4, vec![paying(0, send_note(&fvk, EXTERNAL, 3, [4; 32], V2))], (0, 3, 0));
    let err = scan_block(
        &Params::test_network(),
        &fourth,
        &scanning_keys(0),
        &no_nullifiers(),
        Some(&prior),
    )
    .err()
    .unwrap();
    assert!(matches!(
        err,
        ScanError::BlockHeightDiscontinuity { prev_height: 2, new_height: 4 }
    ));
}

#[test]
fn scan_cached_blocks_allows_blocks_out_of_order() {
    let fvk = orchard_key(0);
    let value = 50000;
    let pay = |n: u8| vec![paying(0, send_note(&fvk, EXTERNAL, value, [n; 32], V2))];
    let first = chained(1, pay(1), (0, 0, 0));
    let second = chained(2, pay(2), (0, 1, 0));
    let third = chained(3, pay(3), (0, 2, 0));

    let scanned_first = scan(&first, &no_nullifiers());
    assert_eq!(orchard_total(&[&scanned_first]), value);
    let scanned_third = scan(&third, &no_nullifiers());
    let scanned_second = scan(&second, &no_nullifiers());
    assert_eq!(
        orchard_total(&[&scanned_first, &scanned_second, &scanned_third]),
        3 * value
    );
    assert_eq!(
        scanned_third.transactions[0].orchard_outputs[0].note_commitment_tree_position,
        2
    );
}

#[test]
fn scan_cached_blocks_finds_received_notes() {
    let fvk = orchard_key(0);
    let first = chained(1, vec![paying(0, send_note(&fvk, EXTERNAL, 50000, [1; 32], V2))], (0, 0, 0));
    let scanned_first = scan(&first, &no_nullifiers());
    assert_eq!(orchard_total(&[&scanned_first]), 50000);

    let second = chained(2, vec![paying(0, send_note(&fvk, EXTERNAL, 7000, [2; 32], V2))], (0, 1, 0));
    let scanned_second = scan(&second, &no_nullifiers());
    assert_eq!(orchard_total(&[&scanned_first, &scanned_second]), 57000);
}

/// A transaction that spends a note, sends a part of it to another account and keeps the rest.
fn spending(nf: [u8; 32], sent: u64, change: u64) -> CompactTx {
    let to = orchard_key(1);
    let fvk = orchard_key(0);
    let mut tx = transaction(0);
    tx.actions.push(send_note(&to, EXTERNAL, sent, nf, V2).action);
    tx.actions.push(send_note(&fvk, INTERNAL, change, [8; 32], V2).action);
    tx
}

#[test]
fn scan_cached_blocks_finds_change_notes() {
    let fvk = orchard_key(0);
    let sent = send_note(&fvk, EXTERNAL, 50000, [1; 32], V2);
    let nf = sent.note.nullifier(&fvk).to_bytes();
    let first = chained(1, vec![paying(0, sent)], (0, 0, 0));
    let scanned = scan(&first, &no_nullifiers());
    assert_eq!(orchard_total(&[&scanned]), 50000);
    let output = &scanned.transactions[0].orchard_outputs[0];
    assert_eq!(output.nf, Some(nf));
    assert!(!output.is_change);

    let known = Nullifiers {
        sapling: vec![],
        orchard: vec![TrackedNullifier { account: 0, nf }],
    };
    let second = chained(2, vec![spending(nf, 20000, 30000)], (0, 1, 0));
    let scanned = scan(&second, &known);
    let tx = &scanned.transactions[0];
    assert_eq!(tx.orchard_spends.len(), 1);
    assert_eq!(tx.orchard_spends[0].nf, nf);
    assert_eq!(tx.orchard_outputs.len(), 1);
    assert_eq!(tx.orchard_outputs[0].index, 1);
    assert_eq!(tx.orchard_outputs[0].note.value, 50000 - 20000);
    assert!(tx.orchard_outputs[0].is_change);
    assert_eq!(tx.orchard_outputs[0].recipient_key_scope, Scope::Internal);
    assert_eq!(tx.orchard_outputs[0].note.version, NoteVersion::V2);
}

#[test]
fn scan_cached_blocks_detects_spends_out_of_order() {
    let fvk = orchard_key(0);
    let sent = send_note(&fvk, EXTERNAL, 50000, [1; 32], V2);
    let nf = sent.note.nullifier(&fvk).to_bytes();
    let first = chained(1, vec![paying(0, sent)], (0, 0, 0));
    let second = chained(2, vec![spending(nf, 20000, 30000)], (0, 1, 0));

    let scanned_second = scan(&second, &no_nullifiers());
    assert_eq!(scanned_second.transactions[0].orchard_spends.len(), 0);
    let unlinked = &scanned_second.orchard.nullifier_map[0];
    assert_eq!(unlinked.tx_index, 0);
    assert!(unlinked.nullifiers.contains(&nf));

    let scanned_first = scan(&first, &no_nullifiers());
    let found = scanned_first.transactions[0].orchard_outputs[0].nf.unwrap();
    assert!(unlinked.nullifiers.contains(&found));
    assert_eq!(orchard_total(&[&scanned_first, &scanned_second]) - 50000, 30000);
}

#[test]
fn multi_pool_checkpoint() {
    let fvk = orchard_key(0);
    let mut tx = paying(0, send_note(&fvk, EXTERNAL, 500000, [1; 32], V2));
    tx.outputs.push(sapling_output(&sapling_key(0), 500000));
    let first = chained(1, vec![tx], (0, 0, 0));
    let scanned = scan(&first, &no_nullifiers());
    let marked = vec![Retention::Checkpoint { id: 1, marking: Marking::Marked }];
    assert_eq!(retentions(&scanned.sapling.commitments), marked);
    assert_eq!(retentions(&scanned.orchard.commitments), marked);
    assert_eq!(scanned.ironwood.commitments.len(), 0);

    let second = chained(2, vec![random_compact_tx(0)], (1, 1, 0));
    let scanned = scan(&second, &no_nullifiers());
    assert_eq!(scanned.transactions.len(), 0);
    assert_eq!(
        retentions(&scanned.sapling.commitments),
        vec![Retention::Checkpoint { id: 2, marking: Marking::Unmarked }]
    );
    assert_eq!(scanned.orchard.commitments.len(), 0);
    assert_eq!(scanned.orchard.final_tree_size, 1);
}

#[test]
fn ironwood_notes_are_found_with_orchard_keys() {
    let fvk = orchard_key(0);
    let sent = send_note(&fvk, EXTERNAL, 4, [1; 32], V3);
    let nf = sent.note.nullifier(&fvk).to_bytes();
    let mut tx = paying(0, send_note(&fvk, EXTERNAL, 3, [2; 32], V2));
    tx.ironwood_actions.push(sent.action);
    let block = chained(1, vec![tx], (0, 10, 20));
    for batched in [false, true] {
        let keys = scanning_keys(0);
        let mut runners = if batched { Some(runners_for(&block.0, &keys)) } else { None };
        let scanned = scan_block_with_runners(
            &Params::test_network(),
            &block.0,
            &keys,
            &no_nullifiers(),
            Some(&block.1),
            runners.as_mut(),
        )
        .unwrap();
        let outputs = &scanned.transactions[0].orchard_outputs;
        assert_eq!(outputs.len(), 2);
        assert_eq!(outputs[0].index, 0);
        assert_eq!(outputs[0].note.value, 3);
        assert_eq!(outputs[0].note.version, NoteVersion::V2);
        assert_eq!(outputs[0].note_commitment_tree_position, 10);
        assert_eq!(outputs[1].index, 1);
        assert_eq!(outputs[1].note.value, 4);
        assert_eq!(outputs[1].note.version, NoteVersion::V3);
        assert_eq!(outputs[1].note_commitment_tree_position, 20);
        assert_eq!(outputs[1].nf, Some(nf));
        assert_eq!(scanned.orchard.final_tree_size, 11);
        assert_eq!(scanned.ironwood.final_tree_size, 21);
    }
}

#[test]
fn a_note_of_the_other_version_is_not_found() {
    let fvk = orchard_key(0);
    let mut tx = transaction(0);
    tx.actions.push(send_note(&fvk, EXTERNAL, 4, [1; 32], V3).action);
    tx.ironwood_actions.push(send_note(&fvk, EXTERNAL, 4, [2; 32], V2).action);
    let scanned = scan(&chained(1, vec![tx], (0, 0, 0)), &no_nullifiers());
    assert_eq!(scanned.transactions.len(), 0);
    assert_eq!(scanned.orchard.commitments.len(), 1);
    assert_eq!(scanned.ironwood.commitments.len(), 1);
}

#[test]
fn unknown_tree_sizes_are_reported() {
    let fvk = orchard_key(0);
    let (mut block, _) =
        chained(2000000, vec![paying(0, send_note(&fvk, EXTERNAL, 4, [1; 32], V2))], (0, 0, 0));
    block.chain_metadata = None;
    let err = scan_error(&block, None);
    assert!(matches!(
        err,
        ScanError::TreeSizeUnknown { tree: NoteCommitmentTree::Sapling, at_height: 2000000 }
    ));
}

#[test]
fn sapling_notes_get_their_nullifiers() {
    let dfvk = sapling_key(0);
    let (change, output) =
        sapling_note_to(&dfvk, dfvk.change_address().1, 6, Zip212Enforcement::Off);
    let mut tx = transaction(0);
    tx.outputs.push(sapling_output(&dfvk, 5));
    tx.outputs.push(output);
    let scanned = scan(&chained(1, vec![tx], (30, 0, 0)), &no_nullifiers());
    let outputs = &scanned.transactions[0].sapling_outputs;
    assert_eq!(outputs.len(), 2);
    assert_eq!(outputs[1].recipient_key_scope, Scope::Internal);
    assert_eq!(outputs[1].note_commitment_tree_position, 31);
    assert_eq!(outputs[1].note.recipient, dfvk.change_address().1.to_bytes());
    assert_eq!(outputs[1].note.form, SaplingNoteForm::BeforeZip212);
    let expected = change.nf(&dfvk.to_nk(zip32::Scope::Internal), 31);
    assert_eq!(outputs[1].nf, Some(expected.0));
}

#[test]
fn zip212_is_enforced_by_height() {
    let dfvk = sapling_key(0);
    let to = dfvk.default_address().1;
    let canopy = 1_028_500;
    for (height, zip212, found) in [
        (1, Zip212Enforcement::Off, true),
        (1, Zip212Enforcement::On, false),
        (canopy, Zip212Enforcement::Off, true),
        (canopy, Zip212Enforcement::On, true),
        (canopy + 32256, Zip212Enforcement::Off, false),
        (canopy + 32256, Zip212Enforcement::On, true),
    ] {
        let mut tx = transaction(0);
        tx.outputs.push(sapling_note_to(&dfvk, to, 5, zip212).1);
        let block = CompactBlock {
            height,
            hash: [0; 32],
            prev_hash: [1; 32],
            time: 0,
            vtx: vec![tx],
            chain_metadata: None,
        };
        let scanned = scan_block(
            &Params::test_network(),
            &block,
            &scanning_keys(0),
            &no_nullifiers(),
            Some(&metadata(height - 1, [1; 32], (0, 0, 0))),
        )
        .unwrap();
        assert_eq!(scanned.transactions.len(), if found { 1 } else { 0 });
    }
}

/// The values of the Orchard notes that batch runners find in a block.
fn orchard_values(
    (block, prior): &(CompactBlock, BlockMetadata),
    runners: &mut BatchRunners,
) -> Result<Vec<u64>, ScanError> {
    let scanned = scan_block_with_runners(
        &Params::test_network(),
        block,
        &scanning_keys(0),
        &no_nullifiers(),
        Some(prior),
        Some(runners),
    )?;
    let outputs = scanned.transactions.iter().flat_map(|tx| tx.orchard_outputs.iter());
    Ok(outputs.map(|output| output.note.value).collect())
}

/// A block with two transactions that pay 5 and 7.
fn two_payments(height: u32, before: (u32, u32, u32)) -> (CompactBlock, BlockMetadata) {
    let fvk = orchard_key(0);
    let five = paying(0, send_note(&fvk, EXTERNAL, 5, [1; 32], V2));
    let seven = paying(1, send_note(&fvk, EXTERNAL, 7, [2; 32], V2));
    chained(height, vec![five, seven], before)
}

#[test]
fn blocks_are_scanned_one_after_another_with_the_same_runners() {
    let first = two_payments(1, (0, 0, 0));
    let fvk = orchard_key(0);
    let second = chained(2, vec![paying(0, send_note(&fvk, EXTERNAL, 9, [3; 32], V2))], (0, 2, 0));
    for order in [[&first, &second], [&second, &first]] {
        let mut runners = BatchRunners::for_keys(10, &scanning_keys(0));
        runners.add_block(&Params::test_network(), &first.0).unwrap();
        runners.add_block(&Params::test_network(), &second.0).unwrap();
        runners.flush();
        for block in order {
            let expected = if block.0.height == 1 { vec![5, 7] } else { vec![9] };
            assert_eq!(orchard_values(block, &mut runners).unwrap(), expected);
        }
        // What was given out is forgotten.
        assert_eq!(orchard_values(&first, &mut runners).unwrap(), Vec::<u64>::new());
    }
}

#[test]
fn a_block_that_does_not_follow_can_be_scanned_again() {
    let block = two_payments(1, (0, 0, 0));
    let mut runners = runners_for(&block.0, &scanning_keys(0));
    let misplaced = (two_payments(1, (0, 0, 0)).0, metadata(5, [5; 32], (0, 0, 0)));
    assert!(matches!(
        orchard_values(&misplaced, &mut runners),
        Err(ScanError::BlockHeightDiscontinuity { prev_height: 5, new_height: 1 })
    ));
    assert_eq!(orchard_values(&block, &mut runners).unwrap(), vec![5, 7]);
}

#[test]
fn runners_keep_what_was_not_reached() {
    let block = two_payments(1, (0, 0, 0));
    let mut runners = runners_for(&block.0, &scanning_keys(0));
    let mut unreadable = two_payments(1, (0, 0, 0));
    unreadable.0.vtx[1].actions[0].cmx = vec![0; 31];
    let err = orchard_values(&unreadable, &mut runners).unwrap_err();
    assert!(matches!(
        err,
        ScanError::EncodingInvalid { tree: NoteCommitmentTree::Orchard, index: 0, .. }
    ));
    // The first transaction was given out, the second was not.
    assert_eq!(orchard_values(&block, &mut runners).unwrap(), vec![7]);
}

#[test]
fn outputs_before_an_unreadable_item_are_handed_over() {
    let block = two_payments(1, (0, 0, 0));
    let mut unreadable = CompactBlock { vtx: vec![], ..chained(1, vec![], (0, 0, 0)).0 };
    let (good, prior) = block;
    let mut vtx = good.vtx.into_iter();
    unreadable.vtx.push(vtx.next().unwrap());
    let mut second = vtx.next().unwrap();
    second.ironwood_actions.push(action(vec![3; 32], vec![4; 31]));
    unreadable.vtx.push(second);
    let mut runners = BatchRunners::for_keys(10, &scanning_keys(0));
    let err = runners.add_block(&Params::test_network(), &unreadable).unwrap_err();
    assert_decode_error(&err, NoteCommitmentTree::Ironwood);
    runners.flush();

    unreadable.vtx[1].ironwood_actions.clear();
    assert_eq!(orchard_values(&(unreadable, prior), &mut runners).unwrap(), vec![5, 7]);
}
