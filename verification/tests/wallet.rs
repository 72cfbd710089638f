//! The wallet in memory, and its records.

use ironwood::consensus::Params;
use ironwood::memwallet::notes::{write_note, Note};
use ironwood::memwallet::proto;
use ironwood::memwallet::record::Record;
use ironwood::memwallet::sanitize::sanitize_proto_wallet_v1;
use ironwood::memwallet::serialization::{
    MemoryWalletDb, MEMORY_WALLET_PROTO_V1, MEMORY_WALLET_PROTO_V2,
};
use ironwood::memwallet::types::{
    Address, Error, NoteId, Nullifier, OutPoint, OutputSpend, TxId, TxLocator,
};
use ironwood::memwallet::values::{
    Account, Memo, MemoryWalletBlock, ReceivedNote, ReceivedTransparentOutput, Recipient,
    ScanPriority, ScanRange, SentNote, TransactionDataRequest, TransactionEntry,
};
use ironwood::pool::{NoteVersion, ShieldedProtocol};
use ironwood::scanning::pools::{OrchardNote, SaplingNote, SaplingNoteForm, Scope};

fn new_wallet() -> MemoryWalletDb<Params> {
    MemoryWalletDb::new(Params::test_network(), 100)
}

fn read(record: proto::MemoryWallet) -> Result<MemoryWalletDb<Params>, Error> {
    MemoryWalletDb::new_from_proto(record, Params::test_network(), 100)
}

fn empty_proto_wallet(version: u32) -> proto::MemoryWallet {
    proto::MemoryWallet { version, ..proto::MemoryWallet::from(&new_wallet()) }
}

fn empty_memo() -> Vec<u8> {
    let mut memo = vec![0; 512];
    memo[0] = 0xf6;
    memo
}

fn proto_txid(byte: u8) -> proto::TxId {
    proto::TxId { hash: vec![byte; 32] }
}

fn orchard_v3_note() -> OrchardNote {
    let sk = orchard::keys::SpendingKey::from_bytes([7; 32]).unwrap();
    let recipient = orchard::keys::FullViewingKey::from(&sk)
        .address_at(0u32, orchard::keys::Scope::External);
    let value = orchard::value::NoteValue::from_raw(99);
    let rho = orchard::note::Rho::from_bytes(&[1; 32]).unwrap();
    let note = (0u8..=255)
        .filter_map(|b| orchard::note::RandomSeed::from_bytes([b; 32], &rho).into_option())
        .find_map(|rseed| {
            orchard::Note::from_parts(recipient, value, rho, rseed, orchard::NoteVersion::V3)
                .into_option()
        })
        .expect("at least one test rseed is valid");
    OrchardNote {
        recipient: recipient.to_raw_address_bytes(),
        value: 99,
        rho: [1; 32],
        rseed: *note.rseed().as_bytes(),
        version: NoteVersion::V3,
    }
}

fn add_internal_orchard_sent_note(record: &mut proto::MemoryWallet) {
    record.sent_notes.push(proto::SentNoteRecord {
        sent_note_id: Some(proto::NoteId {
            tx_id: Some(proto_txid(3)),
            pool: proto::POOL_ORCHARD,
            output_index: 0,
        }),
        sent_note: Some(proto::SentNote {
            from_account_id: 0,
            to: Some(proto::Recipient {
                recipient_type: proto::RECIPIENT_INTERNAL,
                address: None,
                pool_type: None,
                account_id: Some(0),
                outpoint: None,
                note: Some(write_note(&Note::Orchard(orchard_v3_note()))),
            }),
            value: 99,
            memo: empty_memo(),
        }),
    });
}

fn ironwood_block() -> proto::WalletBlock {
    proto::WalletBlock {
        height: 10,
        hash: vec![0; 32],
        block_time: 0,
        transactions: vec![],
        memos: vec![],
        sapling_commitment_tree_size: None,
        sapling_output_count: None,
        orchard_commitment_tree_size: None,
        orchard_action_count: None,
        ironwood_commitment_tree_size: Some(5),
        ironwood_action_count: Some(6),
    }
}

fn end_height() -> proto::TreeEndHeightsRecord {
    proto::TreeEndHeightsRecord { level: 16, index: 0, block_height: 10 }
}

#[test]
fn memory_wallet_encodes_latest_version() {
    let record = proto::MemoryWallet::from(&new_wallet());
    assert_eq!(record.version, MEMORY_WALLET_PROTO_V2);
}

#[test]
fn memory_wallet_rejects_future_version() {
    let err = read(empty_proto_wallet(MEMORY_WALLET_PROTO_V2 + 1)).err().unwrap();
    assert!(matches!(err, Error::UnsupportedProtoVersion(MEMORY_WALLET_PROTO_V2, 3)));
}

#[test]
fn v1_decodes_with_empty_ironwood_state() {
    let mut record = empty_proto_wallet(MEMORY_WALLET_PROTO_V1);
    record.ironwood_tree =
        Some(proto::ShardTree { cap: vec![0xff], shards: vec![], checkpoints: vec![] });
    record.ironwood_tree_shard_end_heights.push(end_height());
    record.blocks.push(ironwood_block());

    let wallet = read(record).ok().unwrap();
    assert!(wallet.ironwood_tree_shard_end_heights.is_empty());
    let block = wallet.blocks.get(&10).unwrap();
    assert_eq!(block.ironwood_commitment_tree_size, None);
    assert_eq!(block.ironwood_action_count, None);
}

#[test]
fn v2_decodes_ironwood_state() {
    let mut record = empty_proto_wallet(MEMORY_WALLET_PROTO_V2);
    record.ironwood_tree_shard_end_heights.push(end_height());
    record.blocks.push(ironwood_block());

    let wallet = read(record).ok().unwrap();
    assert_eq!(wallet.ironwood_tree_shard_end_heights.len(), 1);
    let block = wallet.blocks.get(&10).unwrap();
    assert_eq!(block.ironwood_commitment_tree_size, Some(5));
    assert_eq!(block.ironwood_action_count, Some(6));
}

fn sent_note_version(wallet: &MemoryWalletDb<Params>) -> NoteVersion {
    match &wallet.sent_notes.entries()[0].value.to {
        Recipient::InternalAccount { note: Note::Orchard(note), .. } => note.version,
        _ => panic!("expected an Orchard note to an internal account"),
    }
}

#[test]
fn v1_decodes_orchard_notes_as_legacy_v2() {
    let mut record = empty_proto_wallet(MEMORY_WALLET_PROTO_V1);
    add_internal_orchard_sent_note(&mut record);
    assert_eq!(sent_note_version(&read(record).ok().unwrap()), NoteVersion::V2);
}

#[test]
fn v2_decodes_orchard_notes_as_current_version() {
    let mut record = empty_proto_wallet(MEMORY_WALLET_PROTO_V2);
    add_internal_orchard_sent_note(&mut record);
    assert_eq!(sent_note_version(&read(record).ok().unwrap()), NoteVersion::V3);
}

fn txid(byte: u8) -> TxId {
    TxId { bytes: [byte; 32] }
}

fn note_id(byte: u8, index: u16) -> NoteId {
    NoteId { txid: txid(byte), protocol: ShieldedProtocol::Orchard, output_index: index }
}

fn full_wallet() -> MemoryWalletDb<Params> {
    let mut wallet = new_wallet();
    wallet.account_nonce = 4;
    wallet.accounts.insert(
        3,
        Account {
            name: "savings".to_string(),
            viewing_key: "uview1".to_string(),
            birthday_height: 9,
            birthday_hash: [8; 32],
            final_sapling_tree: vec![1],
            final_orchard_tree: vec![2],
            final_ironwood_tree: vec![3],
            recover_until: Some(20),
        },
    );
    let mut block = MemoryWalletBlock {
        height: 11,
        hash: [4; 32],
        block_time: 77,
        transactions: ironwood::memwallet::table::Table::new(),
        memos: ironwood::memwallet::table::Table::new(),
        sapling_commitment_tree_size: Some(1),
        sapling_output_count: Some(2),
        orchard_commitment_tree_size: Some(3),
        orchard_action_count: Some(4),
        ironwood_commitment_tree_size: Some(5),
        ironwood_action_count: Some(6),
    };
    block.transactions.insert(txid(5), ());
    block.memos.insert(note_id(5, 1), Memo { bytes: empty_memo() });
    wallet.blocks.insert(11, block);
    wallet.tx_table.insert(
        txid(5),
        TransactionEntry {
            block: Some(11),
            tx_index: Some(1),
            expiry_height: None,
            raw_tx: Some(vec![1, 2, 3]),
            fee: Some(10000),
            target_height: Some(12),
        },
    );
    wallet.received_notes.push(ReceivedNote {
        note_id: note_id(5, 1),
        txid: txid(5),
        output_index: 1,
        account_id: 3,
        note: Note::Orchard(orchard_v3_note()),
        nf: Some(Nullifier { protocol: ShieldedProtocol::Orchard, bytes: [6; 32] }),
        is_change: true,
        memo: Memo { bytes: empty_memo() },
        commitment_tree_position: Some(17),
        recipient_key_scope: Some(Scope::Internal),
    });
    wallet.received_note_spends.insert(note_id(5, 1), txid(6));
    wallet.nullifiers.insert(
        Nullifier { protocol: ShieldedProtocol::Sapling, bytes: [9; 32] },
        TxLocator { height: 11, index: 1 },
    );
    wallet.sent_notes.insert(
        note_id(6, 0),
        SentNote {
            from_account_id: 3,
            to: Recipient::InternalAccount {
                receiving_account: 3,
                external_address: None,
                note: Note::Orchard(orchard_v3_note()),
            },
            value: 99,
            memo: Memo { bytes: empty_memo() },
        },
    );
    wallet.tx_locator.insert(TxLocator { height: 11, index: 1 }, txid(5));
    wallet.scan_queue.push(ScanRange { start: 1, end: 5, priority: ScanPriority::ChainTip });
    wallet.sapling_tree_shard_end_heights.insert(Address { level: 16, index: 1 }, 3);
    wallet.sapling_tree_shard_end_heights.insert(Address { level: 16, index: 0 }, 2);
    wallet.orchard_tree_shard_end_heights.insert(Address { level: 16, index: 0 }, 4);
    wallet.ironwood_tree_shard_end_heights.insert(Address { level: 16, index: 0 }, 5);
    let outpoint = OutPoint { hash: [1; 32], n: 2 };
    wallet.transparent_received_outputs.insert(
        outpoint,
        ReceivedTransparentOutput {
            transaction_id: txid(1),
            account_id: 3,
            address: "tm".to_string(),
            value: 5,
            script: vec![0x51],
            max_observed_unspent_height: Some(8),
        },
    );
    wallet.transparent_received_output_spends.insert(outpoint, txid(2));
    wallet.transparent_spend_map.insert(OutputSpend { txid: txid(2), outpoint }, ());
    wallet.transaction_data_request_queue.push(TransactionDataRequest::GetStatus(txid(1)));
    wallet.transaction_data_request_queue.push(
        TransactionDataRequest::TransactionsInvolvingAddress {
            address: "tm".to_string(),
            start: 1,
            end: None,
        },
    );
    wallet
}

#[test]
fn a_written_wallet_is_read_back() {
    let record = proto::MemoryWallet::from(&full_wallet());
    assert_eq!(record.sapling_tree_shard_end_heights[0].index, 0);
    assert_eq!(record.sapling_tree_shard_end_heights[1].index, 1);
    assert_eq!(record.accounts.as_ref().unwrap().accounts[0].account_id, 3);

    let wallet = read(proto::MemoryWallet::from(&full_wallet())).ok().unwrap();
    assert_eq!(wallet.account_nonce, 4);
    assert_eq!(wallet.received_notes, full_wallet().received_notes);
    assert_eq!(wallet.accounts.get(&3).unwrap().name, "savings");
    assert_eq!(proto::MemoryWallet::from(&wallet), record);
}

#[test]
fn v1_keeps_what_is_not_of_ironwood() {
    let mut record = proto::MemoryWallet::from(&full_wallet());
    record.version = MEMORY_WALLET_PROTO_V1;
    let wallet = read(record).ok().unwrap();
    let account = wallet.accounts.get(&3).unwrap();
    assert_eq!(account.final_orchard_tree, vec![2]);
    assert!(account.final_ironwood_tree.is_empty());
    let block = wallet.blocks.get(&11).unwrap();
    assert_eq!(block.orchard_action_count, Some(4));
    assert_eq!(block.ironwood_action_count, None);
    assert!(wallet.ironwood_tree_shard_end_heights.is_empty());
    assert_eq!(wallet.orchard_tree_shard_end_heights.len(), 1);
    match &wallet.received_notes[0].note {
        Note::Orchard(note) => assert_eq!(note.version, NoteVersion::V2),
        _ => panic!("expected an Orchard note"),
    }
}

#[test]
fn records_that_cannot_be_read() {
    let fail = |change: &dyn Fn(&mut proto::MemoryWallet)| {
        let mut record = proto::MemoryWallet::from(&full_wallet());
        change(&mut record);
        read(record).err().unwrap()
    };
    assert_eq!(fail(&|r| r.accounts = None), Error::ProtoMissingField("accounts"));
    assert_eq!(fail(&|r| r.sapling_tree = None), Error::ProtoMissingField("sapling_tree"));
    assert_eq!(fail(&|r| r.orchard_tree = None), Error::ProtoMissingField("orchard_tree"));
    assert_eq!(
        fail(&|r| r.ironwood_tree.as_mut().unwrap().cap = vec![0xff]),
        Error::InvalidTree
    );
    assert_eq!(fail(&|r| { r.blocks[0].hash.pop(); }), Error::ByteVecToArrayConversion);
    assert_eq!(fail(&|r| r.tx_table[0].tx_id = None), Error::ProtoMissingField("tx_id"));
    assert_eq!(
        fail(&|r| r.orchard_tree_shard_end_heights[0].level = 256),
        Error::IntegerConversion
    );
    assert_eq!(
        fail(&|r| r.received_note_spends[0].note_id.as_mut().unwrap().pool = 0),
        Error::InvalidPool
    );
    assert_eq!(
        fail(&|r| r.received_note_table[0].nullifier.as_mut().unwrap().nullifier = vec![0xff; 32]),
        Error::InvalidNullifier
    );
    assert_eq!(
        fail(&|r| r.received_note_table[0].note.as_mut().unwrap().recipient = vec![0xff; 43]),
        Error::InvalidNote
    );
    assert_eq!(fail(&|r| r.received_note_table[0].memo = vec![0; 513]), Error::InvalidMemo);
    assert_eq!(
        fail(&|r| r.tx_table[0].tx_entry.as_mut().unwrap().fee = Some(u64::MAX)),
        Error::InvalidValue
    );
    assert_eq!(
        fail(&|r| {
            r.sent_notes[0].sent_note.as_mut().unwrap().to.as_mut().unwrap().recipient_type = 9
        }),
        Error::InvalidRecipient
    );
    assert_eq!(
        fail(&|r| r.transaction_data_requests[0].request_type = 9),
        Error::InvalidRequest
    );
}

#[test]
fn a_missing_ironwood_tree_is_empty() {
    let mut record = empty_proto_wallet(MEMORY_WALLET_PROTO_V2);
    record.ironwood_tree = None;
    let wallet = read(record).ok().unwrap();
    assert_eq!(wallet.ironwood_tree, new_wallet().ironwood_tree);
}

#[test]
fn a_later_entry_replaces_an_earlier_one() {
    let mut record = empty_proto_wallet(MEMORY_WALLET_PROTO_V2);
    record.orchard_tree_shard_end_heights.push(end_height());
    record
        .orchard_tree_shard_end_heights
        .push(proto::TreeEndHeightsRecord { level: 16, index: 0, block_height: 12 });
    let wallet = read(record).ok().unwrap();
    assert_eq!(wallet.orchard_tree_shard_end_heights.len(), 1);
    assert_eq!(
        wallet.orchard_tree_shard_end_heights.get(&Address { level: 16, index: 0 }),
        Some(&12)
    );
}

#[test]
fn what_is_taken_away_is_gone() {
    let mut once = proto::MemoryWallet::from(&full_wallet());
    sanitize_proto_wallet_v1(&mut once);
    let mut twice = proto::MemoryWallet::from(&full_wallet());
    sanitize_proto_wallet_v1(&mut twice);
    sanitize_proto_wallet_v1(&mut twice);
    assert_eq!(once, twice);
    assert_eq!(once.ironwood_tree, None);
    assert_eq!(once.received_note_table[0].note.as_ref().unwrap().orchard_note_version, None);
}

#[test]
fn sapling_notes_are_read_back() {
    let address = sapling_crypto::zip32::ExtendedSpendingKey::master(&[0; 32])
        .unwrap()
        .default_address()
        .1;
    let note = SaplingNote {
        recipient: address.to_bytes(),
        value: 12,
        form: SaplingNoteForm::BeforeZip212,
        rseed: [1; 32],
    };
    let record = write_note(&Note::Sapling(note));
    assert_eq!(record.read(), Ok(Note::Sapling(note)));

    let mut record = write_note(&Note::Sapling(note));
    record.rseed.as_mut().unwrap().payload = vec![0xff; 32];
    assert_eq!(record.read(), Err(Error::InvalidNote));
    record.rseed.as_mut().unwrap().rseed_type = proto::RSEED_AFTER_ZIP212;
    assert!(record.read().is_ok());
    record.recipient = vec![0xff; 43];
    assert_eq!(record.read(), Err(Error::InvalidNote));
}

#[test]
fn transaction_identifiers() {
    let record = proto::TxId::from(&txid(9));
    assert_eq!(record.hash, vec![9; 32]);
    assert_eq!(TxId::try_from(&record), Ok(txid(9)));
    assert_eq!(
        TxId::try_from(&proto::TxId { hash: vec![9; 31] }),
        Err(Error::ByteVecToArrayConversion)
    );
}

#[test]
fn stored_trees_keep_a_fixed_number_of_checkpoints() {
    let new = MemoryWalletDb::new(Params::test_network(), 7);
    assert_eq!(new.sapling_tree.max_checkpoints, 7);
    assert_eq!(new.orchard_tree.max_checkpoints, 7);
    assert_eq!(new.ironwood_tree.max_checkpoints, 7);

    let read = |record| {
        let wallet = MemoryWalletDb::new_from_proto(record, Params::test_network(), 7).ok().unwrap();
        (
            wallet.sapling_tree.max_checkpoints,
            wallet.orchard_tree.max_checkpoints,
            wallet.ironwood_tree.max_checkpoints,
        )
    };
    assert_eq!(read(empty_proto_wallet(MEMORY_WALLET_PROTO_V2)), (100, 100, 100));
    assert_eq!(read(empty_proto_wallet(MEMORY_WALLET_PROTO_V1)), (100, 100, 7));
    let mut record = empty_proto_wallet(MEMORY_WALLET_PROTO_V2);
    record.ironwood_tree = None;
    assert_eq!(read(record), (100, 100, 7));
}

#[test]
fn a_block_is_written_with_its_own_height() {
    let block = proto::MemoryWallet::from(&full_wallet()).blocks[0].read_record().ok().unwrap().1;
    assert_eq!(block.height, 11);
    let mut misplaced = full_wallet();
    misplaced.blocks = ironwood::memwallet::table::Table::new();
    misplaced.blocks.insert(41, block);

    let record = proto::MemoryWallet::from(&misplaced);
    assert_eq!(record.blocks.len(), 1);
    assert_eq!(record.blocks[0].height, 11);
    let wallet = read(record).ok().unwrap();
    assert_eq!(wallet.blocks.get(&11).unwrap().block_time, 77);
    assert!(wallet.blocks.get(&41).is_none());
    assert_eq!(wallet.tx_table.get(&txid(5)).unwrap().fee, Some(10000));
    assert_eq!(wallet.account_nonce, 4);
}
