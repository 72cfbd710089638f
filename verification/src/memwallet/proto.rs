//! The records that a wallet is stored as.

use vstd::prelude::*;

verus! {

/// The code of the Sapling protocol in records.
pub const PROTOCOL_SAPLING: i32 = 0;

/// The code of the Orchard protocol in records.
pub const PROTOCOL_ORCHARD: i32 = 1;

/// The code of the transparent pool in records.
pub const POOL_TRANSPARENT: i32 = 0;

/// The code of the Sapling pool in records.
pub const POOL_SAPLING: i32 = 1;

/// The code of the Orchard pool in records.
pub const POOL_ORCHARD: i32 = 2;

/// The code of a note seed from before ZIP 212.
pub const RSEED_BEFORE_ZIP212: i32 = 0;

/// The code of a note seed from after ZIP 212.
pub const RSEED_AFTER_ZIP212: i32 = 1;

/// The code of a recipient outside of the wallet.
pub const RECIPIENT_EXTERNAL: i32 = 0;

/// The code of an ephemeral transparent recipient.
pub const RECIPIENT_EPHEMERAL: i32 = 1;

/// The code of a recipient that is an account of the wallet.
pub const RECIPIENT_INTERNAL: i32 = 2;

/// The code of the internal key scope.
pub const SCOPE_INTERNAL: i32 = 0;

/// The code of the external key scope.
pub const SCOPE_EXTERNAL: i32 = 1;

/// The code of a request for the status of a transaction.
pub const REQUEST_STATUS: i32 = 0;

/// The code of a request for the whole of a transaction.
pub const REQUEST_ENHANCEMENT: i32 = 1;

/// The code of a request for the transactions of an address.
pub const REQUEST_ADDRESS: i32 = 2;

#[derive(Debug, PartialEq, Eq)]
pub struct TxId {
    pub hash: Vec<u8>,
}

#[derive(Debug, PartialEq, Eq)]
pub struct OutPoint {
    pub hash: Vec<u8>,
    pub index: u32,
}

#[derive(Debug, PartialEq, Eq)]
pub struct NoteId {
    pub tx_id: Option<TxId>,
    pub pool: i32,
    pub output_index: u32,
}

#[derive(Debug, PartialEq, Eq)]
pub struct Nullifier {
    pub protocol: i32,
    pub nullifier: Vec<u8>,
}

#[derive(Debug, PartialEq, Eq)]
pub struct RSeed {
    pub rseed_type: i32,
    pub payload: Vec<u8>,
}

#[derive(Debug, PartialEq, Eq)]
pub struct Note {
    pub protocol: i32,
    pub recipient: Vec<u8>,
    pub value: u64,
    pub rho: Option<Vec<u8>>,
    pub rseed: Option<RSeed>,
    /// The version of an Orchard note plaintext; absent in records from before there was more
    /// than one.
    pub orchard_note_version: Option<u32>,
}

#[derive(Debug, PartialEq, Eq)]
pub struct ChainState {
    pub block_height: u32,
    pub block_hash: Vec<u8>,
    pub final_sapling_tree: Vec<u8>,
    pub final_orchard_tree: Vec<u8>,
    pub final_ironwood_tree: Vec<u8>,
}

#[derive(Debug, PartialEq, Eq)]
pub struct AccountBirthday {
    pub prior_chain_state: Option<ChainState>,
    pub recover_until: Option<u32>,
}

#[derive(Debug, PartialEq, Eq)]
pub struct Account {
    pub account_id: u32,
    pub account_name: String,
    pub viewing_key: String,
    pub birthday: Option<AccountBirthday>,
}

#[derive(Debug, PartialEq, Eq)]
pub struct Accounts {
    pub accounts: Vec<Account>,
    pub account_nonce: u32,
}

#[derive(Debug, PartialEq, Eq)]
pub struct MemoRecord {
    pub note_id: Option<NoteId>,
    pub memo: Vec<u8>,
}

#[derive(Debug, PartialEq, Eq)]
pub struct WalletBlock {
    pub height: u32,
    pub hash: Vec<u8>,
    pub block_time: u32,
    pub transactions: Vec<TxId>,
    pub memos: Vec<MemoRecord>,
    pub sapling_commitment_tree_size: Option<u32>,
    pub sapling_output_count: Option<u32>,
    pub orchard_commitment_tree_size: Option<u32>,
    pub orchard_action_count: Option<u32>,
    pub ironwood_commitment_tree_size: Option<u32>,
    pub ironwood_action_count: Option<u32>,
}

#[derive(Debug, PartialEq, Eq)]
pub struct TransactionEntry {
    pub block: Option<u32>,
    pub tx_index: Option<u32>,
    pub expiry_height: Option<u32>,
    pub raw_tx: Option<Vec<u8>>,
    pub fee: Option<u64>,
    pub target_height: Option<u32>,
}

#[derive(Debug, PartialEq, Eq)]
pub struct TransactionTableRecord {
    pub tx_id: Option<TxId>,
    pub tx_entry: Option<TransactionEntry>,
}

#[derive(Debug, PartialEq, Eq)]
pub struct ReceivedNote {
    pub note_id: Option<NoteId>,
    pub tx_id: Option<TxId>,
    pub output_index: u32,
    pub account_id: u32,
    pub note: Option<Note>,
    pub nullifier: Option<Nullifier>,
    pub is_change: bool,
    pub memo: Vec<u8>,
    pub commitment_tree_position: Option<u64>,
    pub recipient_key_scope: Option<i32>,
}

#[derive(Debug, PartialEq, Eq)]
pub struct ReceivedNoteSpendRecord {
    pub note_id: Option<NoteId>,
    pub tx_id: Option<TxId>,
}

#[derive(Debug, PartialEq, Eq)]
pub struct NullifierRecord {
    pub block_height: u32,
    pub tx_index: u32,
    pub nullifier: Option<Nullifier>,
}

#[derive(Debug, PartialEq, Eq)]
pub struct Recipient {
    pub recipient_type: i32,
    pub address: Option<String>,
    pub pool_type: Option<i32>,
    pub account_id: Option<u32>,
    pub outpoint: Option<OutPoint>,
    pub note: Option<Note>,
}

#[derive(Debug, PartialEq, Eq)]
pub struct SentNote {
    pub from_account_id: u32,
    pub to: Option<Recipient>,
    pub value: u64,
    pub memo: Vec<u8>,
}

#[derive(Debug, PartialEq, Eq)]
pub struct SentNoteRecord {
    pub sent_note_id: Option<NoteId>,
    pub sent_note: Option<SentNote>,
}

#[derive(Debug, PartialEq, Eq)]
pub struct TxLocatorRecord {
    pub block_height: u32,
    pub tx_index: u32,
    pub tx_id: Option<TxId>,
}

#[derive(Debug, PartialEq, Eq)]
pub struct ScanQueueRecord {
    pub start_height: u32,
    pub end_height: u32,
    pub priority: i32,
}

#[derive(Debug, PartialEq, Eq)]
pub struct TreeShard {
    pub shard_index: u64,
    pub shard_data: Vec<u8>,
}

#[derive(Clone, Copy, Debug, PartialEq, Eq)]
pub struct TreeCheckpoint {
    pub checkpoint_id: u32,
    /// The position of the last leaf that the checkpoint covers; absent in an empty tree.
    pub position: Option<u64>,
}

#[derive(Debug, PartialEq, Eq)]
pub struct ShardTree {
    pub cap: Vec<u8>,
    pub shards: Vec<TreeShard>,
    pub checkpoints: Vec<TreeCheckpoint>,
}

#[derive(Debug, PartialEq, Eq)]
pub struct TreeEndHeightsRecord {
    pub level: u32,
    pub index: u64,
    pub block_height: u32,
}

#[derive(Debug, PartialEq, Eq)]
pub struct ReceivedTransparentOutput {
    pub transaction_id: Vec<u8>,
    pub account_id: u32,
    pub address: String,
    pub value: u64,
    pub script: Vec<u8>,
    pub max_observed_unspent_height: Option<u32>,
}

#[derive(Debug, PartialEq, Eq)]
pub struct TransparentReceivedOutputRecord {
    pub outpoint: Option<OutPoint>,
    pub output: Option<ReceivedTransparentOutput>,
}

#[derive(Debug, PartialEq, Eq)]
pub struct TransparentReceivedOutputSpendRecord {
    pub outpoint: Option<OutPoint>,
    pub tx_id: Option<TxId>,
}

#[derive(Debug, PartialEq, Eq)]
pub struct TransparentSpendCacheRecord {
    pub tx_id: Option<TxId>,
    pub outpoint: Option<OutPoint>,
}

#[derive(Debug, PartialEq, Eq)]
pub struct TransactionDataRequest {
    pub request_type: i32,
    pub tx_id: Option<TxId>,
    pub address: Option<String>,
    pub block_range_start: Option<u32>,
    pub block_range_end: Option<u32>,
}

/// A whole wallet.
#[derive(Debug, PartialEq, Eq)]
pub struct MemoryWallet {
    pub version: u32,
    pub accounts: Option<Accounts>,
    pub blocks: Vec<WalletBlock>,
    pub tx_table: Vec<TransactionTableRecord>,
    pub received_note_table: Vec<ReceivedNote>,
    pub received_note_spends: Vec<ReceivedNoteSpendRecord>,
    pub nullifiers: Vec<NullifierRecord>,
    pub sent_notes: Vec<SentNoteRecord>,
    pub tx_locator: Vec<TxLocatorRecord>,
    pub scan_queue: Vec<ScanQueueRecord>,
    pub sapling_tree: Option<ShardTree>,
    pub sapling_tree_shard_end_heights: Vec<TreeEndHeightsRecord>,
    pub orchard_tree: Option<ShardTree>,
    pub orchard_tree_shard_end_heights: Vec<TreeEndHeightsRecord>,
    pub ironwood_tree: Option<ShardTree>,
    pub ironwood_tree_shard_end_heights: Vec<TreeEndHeightsRecord>,
    pub transparent_received_outputs: Vec<TransparentReceivedOutputRecord>,
    pub transparent_received_output_spends: Vec<TransparentReceivedOutputSpendRecord>,
    pub transparent_spend_map: Vec<TransparentSpendCacheRecord>,
    pub transaction_data_requests: Vec<TransactionDataRequest>,
}

} // verus!
