//! The tables and lists of a wallet, as they are stored.

use vstd::prelude::*;

use crate::consensus::BlockHeight;
use crate::field::to_array;
use crate::field::array_of;
use crate::field::copy_bytes;
use crate::field::lemma_array_of;
use crate::scanning::pools::AccountId;
use crate::scanning::pools::Scope;
use crate::value::MAX_MONEY;

use super::notes::note_valid;
use super::notes::nullifier_valid;
use super::notes::outpoint_error;
use super::notes::read_outpoint;
use super::notes::read_txid;
use super::notes::txid_error;
use super::notes::write_note;
use super::notes::write_note_id;
use super::notes::write_nullifier;
use super::notes::write_outpoint;
use super::notes::Note;
use super::proto;
use super::record::all_writable;
use super::record::first_error;
use super::record::held;
use super::record::read_table;
use super::record::write_table;
use super::record::ListRecord;
use super::record::Record;
use super::table::map_of;
use super::table::Table;
use super::types::Address;
use super::types::Error;
use super::types::NoteId;
use super::types::Nullifier;
use super::types::OutPoint;
use super::types::OutputSpend;
use super::types::TxId;
use super::types::TxLocator;

verus! {

/// The greatest number of bytes in a memo.
pub const MAX_MEMO: usize = 512;

/// A memo.
#[derive(Debug, PartialEq, Eq)]
pub struct Memo {
    pub bytes: Vec<u8>,
}

/// An account of the wallet.
#[derive(Debug, PartialEq, Eq)]
pub struct Account {
    pub name: String,
    pub viewing_key: String,
    /// The height of the block before the account's first.
    pub birthday_height: BlockHeight,
    pub birthday_hash: [u8; 32],
    /// The frontiers of the trees after that block.
    pub final_sapling_tree: Vec<u8>,
    pub final_orchard_tree: Vec<u8>,
    pub final_ironwood_tree: Vec<u8>,
    pub recover_until: Option<BlockHeight>,
}

/// A block that was scanned.
pub struct MemoryWalletBlock {
    pub height: BlockHeight,
    pub hash: [u8; 32],
    pub block_time: u32,
    /// The transactions that concern the wallet.
    pub transactions: Table<TxId, ()>,
    pub memos: Table<NoteId, Memo>,
    pub sapling_commitment_tree_size: Option<u32>,
    pub sapling_output_count: Option<u32>,
    pub orchard_commitment_tree_size: Option<u32>,
    pub orchard_action_count: Option<u32>,
    pub ironwood_commitment_tree_size: Option<u32>,
    pub ironwood_action_count: Option<u32>,
}

/// A transaction that concerns the wallet.
#[derive(Debug, PartialEq, Eq)]
pub struct TransactionEntry {
    pub block: Option<BlockHeight>,
    pub tx_index: Option<u32>,
    pub expiry_height: Option<BlockHeight>,
    pub raw_tx: Option<Vec<u8>>,
    pub fee: Option<u64>,
    pub target_height: Option<BlockHeight>,
}

/// What a [`Memo`] stands for.
impl View for Memo {
    type V = Seq<u8>;

    open spec fn view(&self) -> Seq<u8> {
        self.bytes@
    }
}

/// What an [`Account`] stands for.
pub struct AccountView {
    pub name: Seq<char>,
    pub viewing_key: Seq<char>,
    pub birthday_height: BlockHeight,
    pub birthday_hash: Seq<u8>,
    pub final_sapling_tree: Seq<u8>,
    pub final_orchard_tree: Seq<u8>,
    pub final_ironwood_tree: Seq<u8>,
    pub recover_until: Option<BlockHeight>,
}

/// What a [`MemoryWalletBlock`] stands for.
pub struct BlockView {
    pub height: BlockHeight,
    pub hash: Seq<u8>,
    pub block_time: u32,
    pub transactions: Map<TxId, ()>,
    pub memos: Map<NoteId, Seq<u8>>,
    pub sapling_commitment_tree_size: Option<u32>,
    pub sapling_output_count: Option<u32>,
    pub orchard_commitment_tree_size: Option<u32>,
    pub orchard_action_count: Option<u32>,
    pub ironwood_commitment_tree_size: Option<u32>,
    pub ironwood_action_count: Option<u32>,
}

/// What a [`TransactionEntry`] stands for.
pub struct TransactionView {
    pub block: Option<BlockHeight>,
    pub tx_index: Option<u32>,
    pub expiry_height: Option<BlockHeight>,
    pub raw_tx: Option<Seq<u8>>,
    pub fee: Option<u64>,
    pub target_height: Option<BlockHeight>,
}

impl View for Account {
    type V = AccountView;

    open spec fn view(&self) -> AccountView {
        AccountView {
            name: self.name@,
            viewing_key: self.viewing_key@,
            birthday_height: self.birthday_height,
            birthday_hash: self.birthday_hash@,
            final_sapling_tree: self.final_sapling_tree@,
            final_orchard_tree: self.final_orchard_tree@,
            final_ironwood_tree: self.final_ironwood_tree@,
            recover_until: self.recover_until,
        }
    }
}

impl View for MemoryWalletBlock {
    type V = BlockView;

    open spec fn view(&self) -> BlockView {
        BlockView {
            height: self.height,
            hash: self.hash@,
            block_time: self.block_time,
            transactions: self.transactions.map(),
            memos: self.memos.map(),
            sapling_commitment_tree_size: self.sapling_commitment_tree_size,
            sapling_output_count: self.sapling_output_count,
            orchard_commitment_tree_size: self.orchard_commitment_tree_size,
            orchard_action_count: self.orchard_action_count,
            ironwood_commitment_tree_size: self.ironwood_commitment_tree_size,
            ironwood_action_count: self.ironwood_action_count,
        }
    }
}

/// The bytes of a vector that may be missing.
pub open spec fn optional_seq(bytes: Option<Vec<u8>>) -> Option<Seq<u8>> {
    match bytes {
        Some(bytes) => Some(bytes@),
        None => None,
    }
}

/// The characters of a string that may be missing.
pub open spec fn optional_chars(text: Option<String>) -> Option<Seq<char>> {
    match text {
        Some(text) => Some(text@),
        None => None,
    }
}

impl View for TransactionEntry {
    type V = TransactionView;

    open spec fn view(&self) -> TransactionView {
        TransactionView {
            block: self.block,
            tx_index: self.tx_index,
            expiry_height: self.expiry_height,
            raw_tx: optional_seq(self.raw_tx),
            fee: self.fee,
            target_height: self.target_height,
        }
    }
}

/// A copy of bytes that may be missing.
fn copy_optional(bytes: &Option<Vec<u8>>) -> (r: Option<Vec<u8>>)
    ensures
        optional_seq(r) == optional_seq(*bytes),
{
    match bytes {
        Some(bytes) => Some(copy_bytes(bytes.as_slice())),
        None => None,
    }
}

/// A copy of a string that may be missing.
fn copy_optional_string(text: &Option<String>) -> (r: Option<String>)
    ensures
        optional_chars(r) == optional_chars(*text),
{
    match text {
        Some(text) => Some(text.clone()),
        None => None,
    }
}

impl Record for proto::TxId {
    type Key = TxId;

    type Value = ();

    open spec fn read_error(&self) -> Option<Error> {
        self.error()
    }

    open spec fn key(&self) -> TxId {
        self.id()
    }

    open spec fn value(&self) -> () {
        ()
    }

    open spec fn writable(key: TxId, value: ()) -> bool {
        true
    }

    open spec fn stored_key(key: TxId, value: ()) -> TxId {
        key
    }

    fn read_record(&self) -> (r: Result<(TxId, ()), Error>) {
        match TxId::try_from(self) {
            Ok(id) => Ok((id, ())),
            Err(e) => Err(e),
        }
    }

    fn write_record(key: &TxId, value: &()) -> (r: proto::TxId) {
        proto::TxId::from(key)
    }
}

impl Record for proto::MemoRecord {
    type Key = NoteId;

    type Value = Memo;

    open spec fn read_error(&self) -> Option<Error> {
        match self.note_id {
            None => Some(Error::ProtoMissingField("note_id")),
            Some(id) => match id.error() {
                Some(e) => Some(e),
                None => if self.memo@.len() > MAX_MEMO {
                    Some(Error::InvalidMemo)
                } else {
                    None
                },
            },
        }
    }

    open spec fn key(&self) -> NoteId {
        self.note_id->0.id()
    }

    open spec fn value(&self) -> Seq<u8> {
        self.memo@
    }

    open spec fn writable(key: NoteId, value: Seq<u8>) -> bool {
        value.len() <= MAX_MEMO
    }

    open spec fn stored_key(key: NoteId, value: Seq<u8>) -> NoteId {
        key
    }

    fn read_record(&self) -> (r: Result<(NoteId, Memo), Error>) {
        let id = match &self.note_id {
            None => {
                return Err(Error::ProtoMissingField("note_id"));
            },
            Some(id) => match id.read() {
                Ok(id) => id,
                Err(e) => {
                    return Err(e);
                },
            },
        };
        if self.memo.len() > MAX_MEMO {
            return Err(Error::InvalidMemo);
        }
        let memo = Memo { bytes: copy_bytes(self.memo.as_slice()) };
        assert(memo@ == memo.bytes@);
        Ok((id, memo))
    }

    fn write_record(key: &NoteId, value: &Memo) -> (r: proto::MemoRecord) {
        assert(value@ == value.bytes@);
        proto::MemoRecord {
            note_id: Some(write_note_id(key)),
            memo: copy_bytes(value.bytes.as_slice()),
        }
    }
}

impl Record for proto::Account {
    type Key = AccountId;

    type Value = Account;

    open spec fn read_error(&self) -> Option<Error> {
        match self.birthday {
            None => Some(Error::ProtoMissingField("birthday")),
            Some(birthday) => match birthday.prior_chain_state {
                None => Some(Error::ProtoMissingField("prior_chain_state")),
                Some(state) => if state.block_hash@.len() != 32 {
                    Some(Error::ByteVecToArrayConversion)
                } else {
                    None
                },
            },
        }
    }

    open spec fn key(&self) -> AccountId {
        self.account_id
    }

    open spec fn value(&self) -> AccountView {
        let birthday = self.birthday->0;
        let state = birthday.prior_chain_state->0;
        AccountView {
            name: self.account_name@,
            viewing_key: self.viewing_key@,
            birthday_height: state.block_height,
            birthday_hash: state.block_hash@,
            final_sapling_tree: state.final_sapling_tree@,
            final_orchard_tree: state.final_orchard_tree@,
            final_ironwood_tree: state.final_ironwood_tree@,
            recover_until: birthday.recover_until,
        }
    }

    open spec fn writable(key: AccountId, value: AccountView) -> bool {
        true
    }

    open spec fn stored_key(key: AccountId, value: AccountView) -> AccountId {
        key
    }

    fn read_record(&self) -> (r: Result<(AccountId, Account), Error>) {
        let birthday = match &self.birthday {
            Some(birthday) => birthday,
            None => {
                return Err(Error::ProtoMissingField("birthday"));
            },
        };
        let state = match &birthday.prior_chain_state {
            Some(state) => state,
            None => {
                return Err(Error::ProtoMissingField("prior_chain_state"));
            },
        };
        if state.block_hash.len() != 32 {
            return Err(Error::ByteVecToArrayConversion);
        }
        let account = Account {
            name: self.account_name.clone(),
            viewing_key: self.viewing_key.clone(),
            birthday_height: state.block_height,
            birthday_hash: to_array::<32>(&state.block_hash),
            final_sapling_tree: copy_bytes(state.final_sapling_tree.as_slice()),
            final_orchard_tree: copy_bytes(state.final_orchard_tree.as_slice()),
            final_ironwood_tree: copy_bytes(state.final_ironwood_tree.as_slice()),
            recover_until: birthday.recover_until,
        };
        assert(account@.name == account.name@);
        Ok((self.account_id, account))
    }

    fn write_record(key: &AccountId, value: &Account) -> (r: proto::Account) {
        assert(value@.name == value.name@);
        proto::Account {
            account_id: *key,
            account_name: value.name.clone(),
            viewing_key: value.viewing_key.clone(),
            birthday: Some(
                proto::AccountBirthday {
                    prior_chain_state: Some(
                        proto::ChainState {
                            block_height: value.birthday_height,
                            block_hash: copy_bytes(value.birthday_hash.as_slice()),
                            final_sapling_tree: copy_bytes(value.final_sapling_tree.as_slice()),
                            final_orchard_tree: copy_bytes(value.final_orchard_tree.as_slice()),
                            final_ironwood_tree: copy_bytes(value.final_ironwood_tree.as_slice()),
                        },
                    ),
                    recover_until: value.recover_until,
                },
            ),
        }
    }
}

impl Record for proto::WalletBlock {
    type Key = BlockHeight;

    type Value = MemoryWalletBlock;

    open spec fn read_error(&self) -> Option<Error> {
        if self.hash@.len() != 32 {
            Some(Error::ByteVecToArrayConversion)
        } else {
            match first_error(self.transactions@) {
                Some(e) => Some(e),
                None => first_error(self.memos@),
            }
        }
    }

    open spec fn key(&self) -> BlockHeight {
        self.height
    }

    open spec fn value(&self) -> BlockView {
        BlockView {
            height: self.height,
            hash: self.hash@,
            block_time: self.block_time,
            transactions: map_of(held(self.transactions@)),
            memos: map_of(held(self.memos@)),
            sapling_commitment_tree_size: self.sapling_commitment_tree_size,
            sapling_output_count: self.sapling_output_count,
            orchard_commitment_tree_size: self.orchard_commitment_tree_size,
            orchard_action_count: self.orchard_action_count,
            ironwood_commitment_tree_size: self.ironwood_commitment_tree_size,
            ironwood_action_count: self.ironwood_action_count,
        }
    }

    open spec fn writable(key: BlockHeight, value: BlockView) -> bool {
        all_writable::<proto::MemoRecord>(value.memos)
    }

    open spec fn stored_key(key: BlockHeight, value: BlockView) -> BlockHeight {
        value.height
    }

    fn read_record(&self) -> (r: Result<(BlockHeight, MemoryWalletBlock), Error>) {
        if self.hash.len() != 32 {
            return Err(Error::ByteVecToArrayConversion);
        }
        let transactions = match read_table::<proto::TxId>(&self.transactions) {
            Ok(table) => table,
            Err(e) => {
                return Err(e);
            },
        };
        let memos = match read_table::<proto::MemoRecord>(&self.memos) {
            Ok(table) => table,
            Err(e) => {
                return Err(e);
            },
        };
        let block = MemoryWalletBlock {
            height: self.height,
            hash: to_array::<32>(&self.hash),
            block_time: self.block_time,
            transactions,
            memos,
            sapling_commitment_tree_size: self.sapling_commitment_tree_size,
            sapling_output_count: self.sapling_output_count,
            orchard_commitment_tree_size: self.orchard_commitment_tree_size,
            orchard_action_count: self.orchard_action_count,
            ironwood_commitment_tree_size: self.ironwood_commitment_tree_size,
            ironwood_action_count: self.ironwood_action_count,
        };
        assert(block@.memos == block.memos.map());
        Ok((self.height, block))
    }

    fn write_record(key: &BlockHeight, value: &MemoryWalletBlock) -> (r: proto::WalletBlock) {
        assert(value@.memos == value.memos.map());
        assert(all_writable::<proto::TxId>(value.transactions.map()));
        proto::WalletBlock {
            height: value.height,
            hash: copy_bytes(value.hash.as_slice()),
            block_time: value.block_time,
            transactions: write_table::<proto::TxId>(&value.transactions),
            memos: write_table::<proto::MemoRecord>(&value.memos),
            sapling_commitment_tree_size: value.sapling_commitment_tree_size,
            sapling_output_count: value.sapling_output_count,
            orchard_commitment_tree_size: value.orchard_commitment_tree_size,
            orchard_action_count: value.orchard_action_count,
            ironwood_commitment_tree_size: value.ironwood_commitment_tree_size,
            ironwood_action_count: value.ironwood_action_count,
        }
    }
}

impl Record for proto::TransactionTableRecord {
    type Key = TxId;

    type Value = TransactionEntry;

    open spec fn read_error(&self) -> Option<Error> {
        match (self.tx_id, self.tx_entry) {
            (None, _) => Some(Error::ProtoMissingField("tx_id")),
            (_, None) => Some(Error::ProtoMissingField("tx_entry")),
            (Some(id), Some(entry)) => match id.error() {
                Some(e) => Some(e),
                None => match entry.fee {
                    Some(fee) if fee > MAX_MONEY => Some(Error::InvalidValue),
                    _ => None,
                },
            },
        }
    }

    open spec fn key(&self) -> TxId {
        self.tx_id->0.id()
    }

    open spec fn value(&self) -> TransactionView {
        let entry = self.tx_entry->0;
        TransactionView {
            block: entry.block,
            tx_index: entry.tx_index,
            expiry_height: entry.expiry_height,
            raw_tx: optional_seq(entry.raw_tx),
            fee: entry.fee,
            target_height: entry.target_height,
        }
    }

    open spec fn writable(key: TxId, value: TransactionView) -> bool {
        value.fee matches Some(fee) ==> fee <= MAX_MONEY
    }

    open spec fn stored_key(key: TxId, value: TransactionView) -> TxId {
        key
    }

    fn read_record(&self) -> (r: Result<(TxId, TransactionEntry), Error>) {
        if self.tx_id.is_none() {
            return Err(Error::ProtoMissingField("tx_id"));
        }
        let entry = match &self.tx_entry {
            Some(entry) => entry,
            None => {
                return Err(Error::ProtoMissingField("tx_entry"));
            },
        };
        let txid = match read_txid(&self.tx_id) {
            Ok(txid) => txid,
            Err(e) => {
                return Err(e);
            },
        };
        if let Some(fee) = entry.fee {
            if fee > MAX_MONEY {
                return Err(Error::InvalidValue);
            }
        }
        let transaction = TransactionEntry {
            block: entry.block,
            tx_index: entry.tx_index,
            expiry_height: entry.expiry_height,
            raw_tx: copy_optional(&entry.raw_tx),
            fee: entry.fee,
            target_height: entry.target_height,
        };
        assert(transaction@.fee == transaction.fee);
        Ok((txid, transaction))
    }

    fn write_record(key: &TxId, value: &TransactionEntry) -> (r: proto::TransactionTableRecord) {
        assert(value@.fee == value.fee);
        proto::TransactionTableRecord {
            tx_id: Some(proto::TxId::from(key)),
            tx_entry: Some(
                proto::TransactionEntry {
                    block: value.block,
                    tx_index: value.tx_index,
                    expiry_height: value.expiry_height,
                    raw_tx: copy_optional(&value.raw_tx),
                    fee: value.fee,
                    target_height: value.target_height,
                },
            ),
        }
    }
}

impl Record for proto::ReceivedNoteSpendRecord {
    type Key = NoteId;

    type Value = TxId;

    open spec fn read_error(&self) -> Option<Error> {
        match (self.note_id, self.tx_id) {
            (None, _) => Some(Error::ProtoMissingField("note_id")),
            (_, None) => Some(Error::ProtoMissingField("tx_id")),
            (Some(note_id), Some(tx_id)) => match note_id.error() {
                Some(e) => Some(e),
                None => tx_id.error(),
            },
        }
    }

    open spec fn key(&self) -> NoteId {
        self.note_id->0.id()
    }

    open spec fn value(&self) -> TxId {
        self.tx_id->0.id()
    }

    open spec fn writable(key: NoteId, value: TxId) -> bool {
        true
    }

    open spec fn stored_key(key: NoteId, value: TxId) -> NoteId {
        key
    }

    fn read_record(&self) -> (r: Result<(NoteId, TxId), Error>) {
        match (&self.note_id, &self.tx_id) {
            (None, _) => Err(Error::ProtoMissingField("note_id")),
            (_, None) => Err(Error::ProtoMissingField("tx_id")),
            (Some(note_id), Some(tx_id)) => match note_id.read() {
                Ok(note_id) => match TxId::try_from(tx_id) {
                    Ok(tx_id) => {
                        assert(tx_id@ == tx_id);
                        Ok((note_id, tx_id))
                    },
                    Err(e) => Err(e),
                },
                Err(e) => Err(e),
            },
        }
    }

    fn write_record(key: &NoteId, value: &TxId) -> (r: proto::ReceivedNoteSpendRecord) {
        assert(value@ == *value);
        proto::ReceivedNoteSpendRecord {
            note_id: Some(write_note_id(key)),
            tx_id: Some(proto::TxId::from(value)),
        }
    }
}

impl View for TxLocator {
    type V = TxLocator;

    open spec fn view(&self) -> TxLocator {
        *self
    }
}

impl Record for proto::NullifierRecord {
    type Key = Nullifier;

    type Value = TxLocator;

    open spec fn read_error(&self) -> Option<Error> {
        match self.nullifier {
            None => Some(Error::ProtoMissingField("nullifier")),
            Some(nf) => nf.error(),
        }
    }

    open spec fn key(&self) -> Nullifier {
        self.nullifier->0.nf()
    }

    open spec fn value(&self) -> TxLocator {
        TxLocator { height: self.block_height, index: self.tx_index }
    }

    open spec fn writable(key: Nullifier, value: TxLocator) -> bool {
        nullifier_valid(key)
    }

    open spec fn stored_key(key: Nullifier, value: TxLocator) -> Nullifier {
        key
    }

    fn read_record(&self) -> (r: Result<(Nullifier, TxLocator), Error>) {
        match &self.nullifier {
            None => Err(Error::ProtoMissingField("nullifier")),
            Some(nf) => match nf.read() {
                Ok(nf) => {
                    let at = TxLocator { height: self.block_height, index: self.tx_index };
                    assert(at@ == at);
                    Ok((nf, at))
                },
                Err(e) => Err(e),
            },
        }
    }

    fn write_record(key: &Nullifier, value: &TxLocator) -> (r: proto::NullifierRecord) {
        assert(value@ == *value);
        proto::NullifierRecord {
            block_height: value.height,
            tx_index: value.index,
            nullifier: Some(write_nullifier(key)),
        }
    }
}

impl Record for proto::TxLocatorRecord {
    type Key = TxLocator;

    type Value = TxId;

    open spec fn read_error(&self) -> Option<Error> {
        txid_error(self.tx_id)
    }

    open spec fn key(&self) -> TxLocator {
        TxLocator { height: self.block_height, index: self.tx_index }
    }

    open spec fn value(&self) -> TxId {
        self.tx_id->0.id()
    }

    open spec fn writable(key: TxLocator, value: TxId) -> bool {
        true
    }

    open spec fn stored_key(key: TxLocator, value: TxId) -> TxLocator {
        key
    }

    fn read_record(&self) -> (r: Result<(TxLocator, TxId), Error>) {
        match read_txid(&self.tx_id) {
            Ok(txid) => {
                assert(txid@ == txid);
                Ok((TxLocator { height: self.block_height, index: self.tx_index }, txid))
            },
            Err(e) => Err(e),
        }
    }

    fn write_record(key: &TxLocator, value: &TxId) -> (r: proto::TxLocatorRecord) {
        assert(value@ == *value);
        proto::TxLocatorRecord {
            block_height: key.height,
            tx_index: key.index,
            tx_id: Some(proto::TxId::from(value)),
        }
    }
}

impl Record for proto::TreeEndHeightsRecord {
    type Key = Address;

    type Value = BlockHeight;

    open spec fn read_error(&self) -> Option<Error> {
        if self.level > u8::MAX {
            Some(Error::IntegerConversion)
        } else {
            None
        }
    }

    open spec fn key(&self) -> Address {
        Address { level: self.level as u8, index: self.index }
    }

    open spec fn value(&self) -> BlockHeight {
        self.block_height
    }

    open spec fn writable(key: Address, value: BlockHeight) -> bool {
        true
    }

    open spec fn stored_key(key: Address, value: BlockHeight) -> Address {
        key
    }

    fn read_record(&self) -> (r: Result<(Address, BlockHeight), Error>) {
        if self.level > u8::MAX as u32 {
            return Err(Error::IntegerConversion);
        }
        Ok((Address { level: self.level as u8, index: self.index }, self.block_height))
    }

    fn write_record(key: &Address, value: &BlockHeight) -> (r: proto::TreeEndHeightsRecord) {
        proto::TreeEndHeightsRecord {
            level: key.level as u32,
            index: key.index,
            block_height: *value,
        }
    }
}

impl Record for proto::TransparentReceivedOutputSpendRecord {
    type Key = OutPoint;

    type Value = TxId;

    open spec fn read_error(&self) -> Option<Error> {
        match self.outpoint {
            None => Some(Error::ProtoMissingField("outpoint")),
            Some(outpoint) => match txid_error(self.tx_id) {
                Some(e) => Some(e),
                None => outpoint.error(),
            },
        }
    }

    open spec fn key(&self) -> OutPoint {
        self.outpoint->0.point()
    }

    open spec fn value(&self) -> TxId {
        self.tx_id->0.id()
    }

    open spec fn writable(key: OutPoint, value: TxId) -> bool {
        true
    }

    open spec fn stored_key(key: OutPoint, value: TxId) -> OutPoint {
        key
    }

    fn read_record(&self) -> (r: Result<(OutPoint, TxId), Error>) {
        let outpoint = match &self.outpoint {
            Some(outpoint) => outpoint,
            None => {
                return Err(Error::ProtoMissingField("outpoint"));
            },
        };
        match read_txid(&self.tx_id) {
            Ok(txid) => match outpoint.read() {
                Ok(outpoint) => {
                    assert(txid@ == txid);
                    Ok((outpoint, txid))
                },
                Err(e) => Err(e),
            },
            Err(e) => Err(e),
        }
    }

    fn write_record(key: &OutPoint, value: &TxId) -> (r:
        proto::TransparentReceivedOutputSpendRecord) {
        assert(value@ == *value);
        proto::TransparentReceivedOutputSpendRecord {
            outpoint: Some(write_outpoint(key)),
            tx_id: Some(proto::TxId::from(value)),
        }
    }
}

impl Record for proto::TransparentSpendCacheRecord {
    type Key = OutputSpend;

    type Value = ();

    open spec fn read_error(&self) -> Option<Error> {
        match txid_error(self.tx_id) {
            Some(e) => Some(e),
            None => outpoint_error(self.outpoint),
        }
    }

    open spec fn key(&self) -> OutputSpend {
        OutputSpend { txid: self.tx_id->0.id(), outpoint: self.outpoint->0.point() }
    }

    open spec fn value(&self) -> () {
        ()
    }

    open spec fn writable(key: OutputSpend, value: ()) -> bool {
        true
    }

    open spec fn stored_key(key: OutputSpend, value: ()) -> OutputSpend {
        key
    }

    fn read_record(&self) -> (r: Result<(OutputSpend, ()), Error>) {
        match read_txid(&self.tx_id) {
            Ok(txid) => match read_outpoint(&self.outpoint) {
                Ok(outpoint) => Ok((OutputSpend { txid, outpoint }, ())),
                Err(e) => Err(e),
            },
            Err(e) => Err(e),
        }
    }

    fn write_record(key: &OutputSpend, value: &()) -> (r: proto::TransparentSpendCacheRecord) {
        proto::TransparentSpendCacheRecord {
            tx_id: Some(proto::TxId::from(&key.txid)),
            outpoint: Some(write_outpoint(&key.outpoint)),
        }
    }
}

/// Who a note was sent to.
#[derive(Debug, PartialEq, Eq)]
pub enum Recipient {
    /// An address outside of the wallet.
    External { address: String, pool: i32 },
    /// A transparent address of the wallet that is used once.
    EphemeralTransparent { receiving_account: AccountId, ephemeral_address: String, outpoint: OutPoint },
    /// An account of the wallet.
    InternalAccount { receiving_account: AccountId, external_address: Option<String>, note: Note },
}

/// What a [`Recipient`] stands for.
pub enum RecipientView {
    External { address: Seq<char>, pool: i32 },
    EphemeralTransparent {
        receiving_account: AccountId,
        ephemeral_address: Seq<char>,
        outpoint: OutPoint,
    },
    InternalAccount {
        receiving_account: AccountId,
        external_address: Option<Seq<char>>,
        note: Note,
    },
}

impl View for Recipient {
    type V = RecipientView;

    open spec fn view(&self) -> RecipientView {
        match *self {
            Recipient::External { address, pool } => RecipientView::External {
                address: address@,
                pool,
            },
            Recipient::EphemeralTransparent { receiving_account, ephemeral_address, outpoint } =>
                RecipientView::EphemeralTransparent {
                receiving_account,
                ephemeral_address: ephemeral_address@,
                outpoint,
            },
            Recipient::InternalAccount { receiving_account, external_address, note } =>
                RecipientView::InternalAccount {
                receiving_account,
                external_address: optional_chars(external_address),
                note,
            },
        }
    }
}

/// Whether a recipient can be read back when it has been written.
pub open spec fn recipient_writable(to: RecipientView) -> bool {
    to matches RecipientView::InternalAccount { note, .. } ==> note_valid(note)
}

impl proto::Recipient {
    /// Why the record cannot be read.
    pub open spec fn error(self) -> Option<Error> {
        if self.recipient_type == proto::RECIPIENT_EXTERNAL {
            if self.address is None {
                Some(Error::ProtoMissingField("address"))
            } else if self.pool_type is None {
                Some(Error::ProtoMissingField("pool_type"))
            } else {
                None
            }
        } else if self.recipient_type == proto::RECIPIENT_EPHEMERAL {
            if self.account_id is None {
                Some(Error::ProtoMissingField("account_id"))
            } else if self.address is None {
                Some(Error::ProtoMissingField("address"))
            } else {
                outpoint_error(self.outpoint)
            }
        } else if self.recipient_type == proto::RECIPIENT_INTERNAL {
            if self.account_id is None {
                Some(Error::ProtoMissingField("account_id"))
            } else if self.note is None {
                Some(Error::ProtoMissingField("note"))
            } else {
                self.note->0.error()
            }
        } else {
            Some(Error::InvalidRecipient)
        }
    }

    /// The recipient that the record holds.
    pub open spec fn recipient(self) -> RecipientView {
        if self.recipient_type == proto::RECIPIENT_EXTERNAL {
            RecipientView::External { address: self.address->0@, pool: self.pool_type->0 }
        } else if self.recipient_type == proto::RECIPIENT_EPHEMERAL {
            RecipientView::EphemeralTransparent {
                receiving_account: self.account_id->0,
                ephemeral_address: self.address->0@,
                outpoint: self.outpoint->0.point(),
            }
        } else {
            RecipientView::InternalAccount {
                receiving_account: self.account_id->0,
                external_address: optional_chars(self.address),
                note: self.note->0.note(),
            }
        }
    }

    /// Reads the record.
    pub fn read(&self) -> (r: Result<Recipient, Error>)
        ensures
            match self.error() {
                Some(e) => r matches Err(f) && f == e,
                None => r matches Ok(to) && to@ == self.recipient() && recipient_writable(to@),
            },
    {
        if self.recipient_type == proto::RECIPIENT_EXTERNAL {
            match (&self.address, self.pool_type) {
                (None, _) => Err(Error::ProtoMissingField("address")),
                (_, None) => Err(Error::ProtoMissingField("pool_type")),
                (Some(address), Some(pool)) => Ok(
                    Recipient::External { address: address.clone(), pool },
                ),
            }
        } else if self.recipient_type == proto::RECIPIENT_EPHEMERAL {
            match (self.account_id, &self.address) {
                (None, _) => Err(Error::ProtoMissingField("account_id")),
                (_, None) => Err(Error::ProtoMissingField("address")),
                (Some(receiving_account), Some(address)) => match read_outpoint(&self.outpoint) {
                    Ok(outpoint) => Ok(
                        Recipient::EphemeralTransparent {
                            receiving_account,
                            ephemeral_address: address.clone(),
                            outpoint,
                        },
                    ),
                    Err(e) => Err(e),
                },
            }
        } else if self.recipient_type == proto::RECIPIENT_INTERNAL {
            match (self.account_id, &self.note) {
                (None, _) => Err(Error::ProtoMissingField("account_id")),
                (_, None) => Err(Error::ProtoMissingField("note")),
                (Some(receiving_account), Some(note)) => match note.read() {
                    Ok(note) => Ok(
                        Recipient::InternalAccount {
                            receiving_account,
                            external_address: copy_optional_string(&self.address),
                            note,
                        },
                    ),
                    Err(e) => Err(e),
                },
            }
        } else {
            Err(Error::InvalidRecipient)
        }
    }
}

/// The record of a recipient.
pub fn write_recipient(to: &Recipient) -> (r: proto::Recipient)
    ensures
        recipient_writable(to@) ==> r.error() is None && r.recipient() == to@,
        r.pool_type is Some <==> to is External,
        r.account_id is None <==> to is External,
        r.outpoint is Some <==> to is EphemeralTransparent,
        r.note is Some <==> to is InternalAccount,
{
    match to {
        Recipient::External { address, pool } => proto::Recipient {
            recipient_type: proto::RECIPIENT_EXTERNAL,
            address: Some(address.clone()),
            pool_type: Some(*pool),
            account_id: None,
            outpoint: None,
            note: None,
        },
        Recipient::EphemeralTransparent { receiving_account, ephemeral_address, outpoint } =>
            proto::Recipient {
            recipient_type: proto::RECIPIENT_EPHEMERAL,
            address: Some(ephemeral_address.clone()),
            pool_type: None,
            account_id: Some(*receiving_account),
            outpoint: Some(write_outpoint(outpoint)),
            note: None,
        },
        Recipient::InternalAccount { receiving_account, external_address, note } =>
            proto::Recipient {
            recipient_type: proto::RECIPIENT_INTERNAL,
            address: copy_optional_string(external_address),
            pool_type: None,
            account_id: Some(*receiving_account),
            outpoint: None,
            note: Some(write_note(note)),
        },
    }
}

/// A note that the wallet sent.
#[derive(Debug, PartialEq, Eq)]
pub struct SentNote {
    pub from_account_id: AccountId,
    pub to: Recipient,
    pub value: u64,
    pub memo: Memo,
}

/// What a [`SentNote`] stands for.
pub struct SentNoteView {
    pub from_account_id: AccountId,
    pub to: RecipientView,
    pub value: u64,
    pub memo: Seq<u8>,
}

impl View for SentNote {
    type V = SentNoteView;

    open spec fn view(&self) -> SentNoteView {
        SentNoteView {
            from_account_id: self.from_account_id,
            to: self.to@,
            value: self.value,
            memo: self.memo@,
        }
    }
}

impl Record for proto::SentNoteRecord {
    type Key = NoteId;

    type Value = SentNote;

    open spec fn read_error(&self) -> Option<Error> {
        match (self.sent_note_id, self.sent_note) {
            (None, _) => Some(Error::ProtoMissingField("sent_note_id")),
            (_, None) => Some(Error::ProtoMissingField("sent_note")),
            (Some(id), Some(sent)) => match id.error() {
                Some(e) => Some(e),
                None => match sent.to {
                    None => Some(Error::ProtoMissingField("to")),
                    Some(to) => match to.error() {
                        Some(e) => Some(e),
                        None => if sent.value > MAX_MONEY {
                            Some(Error::InvalidValue)
                        } else if sent.memo@.len() > MAX_MEMO {
                            Some(Error::InvalidMemo)
                        } else {
                            None
                        },
                    },
                },
            },
        }
    }

    open spec fn key(&self) -> NoteId {
        self.sent_note_id->0.id()
    }

    open spec fn value(&self) -> SentNoteView {
        let sent = self.sent_note->0;
        SentNoteView {
            from_account_id: sent.from_account_id,
            to: sent.to->0.recipient(),
            value: sent.value,
            memo: sent.memo@,
        }
    }

    open spec fn writable(key: NoteId, value: SentNoteView) -> bool {
        recipient_writable(value.to) && value.value <= MAX_MONEY && value.memo.len() <= MAX_MEMO
    }

    open spec fn stored_key(key: NoteId, value: SentNoteView) -> NoteId {
        key
    }

    fn read_record(&self) -> (r: Result<(NoteId, SentNote), Error>) {
        let (id, sent) = match (&self.sent_note_id, &self.sent_note) {
            (None, _) => {
                return Err(Error::ProtoMissingField("sent_note_id"));
            },
            (_, None) => {
                return Err(Error::ProtoMissingField("sent_note"));
            },
            (Some(id), Some(sent)) => (id, sent),
        };
        let id = match id.read() {
            Ok(id) => id,
            Err(e) => {
                return Err(e);
            },
        };
        let to = match &sent.to {
            None => {
                return Err(Error::ProtoMissingField("to"));
            },
            Some(to) => match to.read() {
                Ok(to) => to,
                Err(e) => {
                    return Err(e);
                },
            },
        };
        if sent.value > MAX_MONEY {
            return Err(Error::InvalidValue);
        }
        if sent.memo.len() > MAX_MEMO {
            return Err(Error::InvalidMemo);
        }
        let note = SentNote {
            from_account_id: sent.from_account_id,
            to,
            value: sent.value,
            memo: Memo { bytes: copy_bytes(sent.memo.as_slice()) },
        };
        assert(note@.memo == sent.memo@);
        Ok((id, note))
    }

    fn write_record(key: &NoteId, value: &SentNote) -> (r: proto::SentNoteRecord) {
        assert(value@.memo == value.memo.bytes@);
        proto::SentNoteRecord {
            sent_note_id: Some(write_note_id(key)),
            sent_note: Some(
                proto::SentNote {
                    from_account_id: value.from_account_id,
                    to: Some(write_recipient(&value.to)),
                    value: value.value,
                    memo: copy_bytes(value.memo.bytes.as_slice()),
                },
            ),
        }
    }
}

/// A transparent output that the wallet received.
#[derive(Debug, PartialEq, Eq)]
pub struct ReceivedTransparentOutput {
    pub transaction_id: TxId,
    pub account_id: AccountId,
    pub address: String,
    pub value: u64,
    pub script: Vec<u8>,
    pub max_observed_unspent_height: Option<BlockHeight>,
}

/// What a [`ReceivedTransparentOutput`] stands for.
pub struct TransparentOutputView {
    pub transaction_id: TxId,
    pub account_id: AccountId,
    pub address: Seq<char>,
    pub value: u64,
    pub script: Seq<u8>,
    pub max_observed_unspent_height: Option<BlockHeight>,
}

impl View for ReceivedTransparentOutput {
    type V = TransparentOutputView;

    open spec fn view(&self) -> TransparentOutputView {
        TransparentOutputView {
            transaction_id: self.transaction_id,
            account_id: self.account_id,
            address: self.address@,
            value: self.value,
            script: self.script@,
            max_observed_unspent_height: self.max_observed_unspent_height,
        }
    }
}

impl Record for proto::TransparentReceivedOutputRecord {
    type Key = OutPoint;

    type Value = ReceivedTransparentOutput;

    open spec fn read_error(&self) -> Option<Error> {
        match (self.outpoint, self.output) {
            (None, _) => Some(Error::ProtoMissingField("outpoint")),
            (_, None) => Some(Error::ProtoMissingField("output")),
            (Some(outpoint), Some(output)) => if output.transaction_id@.len() != 32 {
                Some(Error::ByteVecToArrayConversion)
            } else if output.value > MAX_MONEY {
                Some(Error::InvalidValue)
            } else {
                outpoint.error()
            },
        }
    }

    open spec fn key(&self) -> OutPoint {
        self.outpoint->0.point()
    }

    open spec fn value(&self) -> TransparentOutputView {
        let output = self.output->0;
        TransparentOutputView {
            transaction_id: TxId { bytes: array_of::<32>(output.transaction_id@) },
            account_id: output.account_id,
            address: output.address@,
            value: output.value,
            script: output.script@,
            max_observed_unspent_height: output.max_observed_unspent_height,
        }
    }

    open spec fn writable(key: OutPoint, value: TransparentOutputView) -> bool {
        value.value <= MAX_MONEY
    }

    open spec fn stored_key(key: OutPoint, value: TransparentOutputView) -> OutPoint {
        key
    }

    fn read_record(&self) -> (r: Result<(OutPoint, ReceivedTransparentOutput), Error>) {
        let (outpoint, output) = match (&self.outpoint, &self.output) {
            (None, _) => {
                return Err(Error::ProtoMissingField("outpoint"));
            },
            (_, None) => {
                return Err(Error::ProtoMissingField("output"));
            },
            (Some(outpoint), Some(output)) => (outpoint, output),
        };
        if output.transaction_id.len() != 32 {
            return Err(Error::ByteVecToArrayConversion);
        }
        if output.value > MAX_MONEY {
            return Err(Error::InvalidValue);
        }
        let bytes = to_array::<32>(&output.transaction_id);
        proof {
            lemma_array_of(bytes);
        }
        let received = ReceivedTransparentOutput {
            transaction_id: TxId { bytes },
            account_id: output.account_id,
            address: output.address.clone(),
            value: output.value,
            script: copy_bytes(output.script.as_slice()),
            max_observed_unspent_height: output.max_observed_unspent_height,
        };
        assert(received@.script == output.script@);
        match outpoint.read() {
            Ok(outpoint) => Ok((outpoint, received)),
            Err(e) => Err(e),
        }
    }

    fn write_record(key: &OutPoint, value: &ReceivedTransparentOutput) -> (r:
        proto::TransparentReceivedOutputRecord) {
        proof {
            lemma_array_of(value.transaction_id.bytes);
            assert(value@.script == value.script@);
        }
        proto::TransparentReceivedOutputRecord {
            outpoint: Some(write_outpoint(key)),
            output: Some(
                proto::ReceivedTransparentOutput {
                    transaction_id: copy_bytes(value.transaction_id.bytes.as_slice()),
                    account_id: value.account_id,
                    address: value.address.clone(),
                    value: value.value,
                    script: copy_bytes(value.script.as_slice()),
                    max_observed_unspent_height: value.max_observed_unspent_height,
                },
            ),
        }
    }
}

/// A note that the wallet received.
#[derive(Debug, PartialEq, Eq)]
pub struct ReceivedNote {
    pub note_id: NoteId,
    pub txid: TxId,
    pub output_index: u32,
    pub account_id: AccountId,
    pub note: Note,
    pub nf: Option<Nullifier>,
    pub is_change: bool,
    pub memo: Memo,
    pub commitment_tree_position: Option<u64>,
    pub recipient_key_scope: Option<Scope>,
}

/// What a [`ReceivedNote`] stands for.
pub struct ReceivedNoteView {
    pub note_id: NoteId,
    pub txid: TxId,
    pub output_index: u32,
    pub account_id: AccountId,
    pub note: Note,
    pub nf: Option<Nullifier>,
    pub is_change: bool,
    pub memo: Seq<u8>,
    pub commitment_tree_position: Option<u64>,
    pub recipient_key_scope: Option<Scope>,
}

impl View for ReceivedNote {
    type V = ReceivedNoteView;

    open spec fn view(&self) -> ReceivedNoteView {
        ReceivedNoteView {
            note_id: self.note_id,
            txid: self.txid,
            output_index: self.output_index,
            account_id: self.account_id,
            note: self.note,
            nf: self.nf,
            is_change: self.is_change,
            memo: self.memo@,
            commitment_tree_position: self.commitment_tree_position,
            recipient_key_scope: self.recipient_key_scope,
        }
    }
}

/// The scope that a code stands for; a code of no meaning reads as the internal one.
pub open spec fn scope_of_code(code: Option<i32>) -> Option<Scope> {
    match code {
        None => None,
        Some(code) => Some(
            if code == proto::SCOPE_EXTERNAL {
                Scope::External
            } else {
                Scope::Internal
            },
        ),
    }
}

impl ListRecord for proto::ReceivedNote {
    type Item = ReceivedNote;

    open spec fn read_error(&self) -> Option<Error> {
        match (self.note_id, self.note) {
            (None, _) => Some(Error::ProtoMissingField("note_id")),
            (_, None) => Some(Error::ProtoMissingField("note")),
            (Some(id), Some(note)) => match id.error() {
                Some(e) => Some(e),
                None => match txid_error(self.tx_id) {
                    Some(e) => Some(e),
                    None => match note.error() {
                        Some(e) => Some(e),
                        None => match self.nullifier {
                            Some(nf) if nf.error() is Some => nf.error(),
                            _ => if self.memo@.len() > MAX_MEMO {
                                Some(Error::InvalidMemo)
                            } else {
                                None
                            },
                        },
                    },
                },
            },
        }
    }

    open spec fn item(&self) -> ReceivedNoteView {
        ReceivedNoteView {
            note_id: self.note_id->0.id(),
            txid: self.tx_id->0.id(),
            output_index: self.output_index,
            account_id: self.account_id,
            note: self.note->0.note(),
            nf: match self.nullifier {
                Some(nf) => Some(nf.nf()),
                None => None,
            },
            is_change: self.is_change,
            memo: self.memo@,
            commitment_tree_position: self.commitment_tree_position,
            recipient_key_scope: scope_of_code(self.recipient_key_scope),
        }
    }

    open spec fn writable(item: ReceivedNoteView) -> bool {
        &&& note_valid(item.note)
        &&& item.nf matches Some(nf) ==> nullifier_valid(nf)
        &&& item.memo.len() <= MAX_MEMO
    }

    fn read_record(&self) -> (r: Result<ReceivedNote, Error>) {
        let (id, note) = match (&self.note_id, &self.note) {
            (None, _) => {
                return Err(Error::ProtoMissingField("note_id"));
            },
            (_, None) => {
                return Err(Error::ProtoMissingField("note"));
            },
            (Some(id), Some(note)) => (id, note),
        };
        let note_id = match id.read() {
            Ok(id) => id,
            Err(e) => {
                return Err(e);
            },
        };
        let txid = match read_txid(&self.tx_id) {
            Ok(txid) => txid,
            Err(e) => {
                return Err(e);
            },
        };
        let note = match note.read() {
            Ok(note) => note,
            Err(e) => {
                return Err(e);
            },
        };
        let nf = match &self.nullifier {
            None => None,
            Some(nf) => match nf.read() {
                Ok(nf) => Some(nf),
                Err(e) => {
                    return Err(e);
                },
            },
        };
        if self.memo.len() > MAX_MEMO {
            return Err(Error::InvalidMemo);
        }
        let received = ReceivedNote {
            note_id,
            txid,
            output_index: self.output_index,
            account_id: self.account_id,
            note,
            nf,
            is_change: self.is_change,
            memo: Memo { bytes: copy_bytes(self.memo.as_slice()) },
            commitment_tree_position: self.commitment_tree_position,
            recipient_key_scope: match self.recipient_key_scope {
                None => None,
                Some(code) => Some(
                    if code == proto::SCOPE_EXTERNAL {
                        Scope::External
                    } else {
                        Scope::Internal
                    },
                ),
            },
        };
        assert(received@.memo == self.memo@);
        Ok(received)
    }

    fn write_record(item: &ReceivedNote) -> (r: proto::ReceivedNote) {
        assert(item@.memo == item.memo.bytes@);
        proto::ReceivedNote {
            note_id: Some(write_note_id(&item.note_id)),
            tx_id: Some(proto::TxId::from(&item.txid)),
            output_index: item.output_index,
            account_id: item.account_id,
            note: Some(write_note(&item.note)),
            nullifier: match &item.nf {
                Some(nf) => Some(write_nullifier(nf)),
                None => None,
            },
            is_change: item.is_change,
            memo: copy_bytes(item.memo.bytes.as_slice()),
            commitment_tree_position: item.commitment_tree_position,
            recipient_key_scope: match item.recipient_key_scope {
                None => None,
                Some(Scope::External) => Some(proto::SCOPE_EXTERNAL),
                Some(Scope::Internal) => Some(proto::SCOPE_INTERNAL),
            },
        }
    }
}

/// How urgent it is to scan a range of blocks.
#[derive(Clone, Copy, Debug, PartialEq, Eq, Structural)]
pub enum ScanPriority {
    Ignored,
    Scanned,
    Historic,
    OpenAdjacent,
    FoundNote,
    ChainTip,
    Verify,
}

/// A range of blocks, from `start` to before `end`, and how urgent it is to scan it.
#[derive(Clone, Copy, Debug, PartialEq, Eq, Structural)]
pub struct ScanRange {
    pub start: BlockHeight,
    pub end: BlockHeight,
    pub priority: ScanPriority,
}

impl View for ScanRange {
    type V = ScanRange;

    open spec fn view(&self) -> ScanRange {
        *self
    }
}

impl ScanPriority {
    /// The code that stands for the priority.
    pub open spec fn code(self) -> i32 {
        match self {
            ScanPriority::Ignored => 0,
            ScanPriority::Scanned => 1,
            ScanPriority::Historic => 2,
            ScanPriority::OpenAdjacent => 3,
            ScanPriority::FoundNote => 4,
            ScanPriority::ChainTip => 5,
            ScanPriority::Verify => 6,
        }
    }

    /// The priority that a code stands for; a code of no meaning reads as the first.
    pub open spec fn of_code(code: i32) -> ScanPriority {
        if code == 1 {
            ScanPriority::Scanned
        } else if code == 2 {
            ScanPriority::Historic
        } else if code == 3 {
            ScanPriority::OpenAdjacent
        } else if code == 4 {
            ScanPriority::FoundNote
        } else if code == 5 {
            ScanPriority::ChainTip
        } else if code == 6 {
            ScanPriority::Verify
        } else {
            ScanPriority::Ignored
        }
    }
}

impl ListRecord for proto::ScanQueueRecord {
    type Item = ScanRange;

    open spec fn read_error(&self) -> Option<Error> {
        None
    }

    open spec fn item(&self) -> ScanRange {
        ScanRange {
            start: self.start_height,
            end: self.end_height,
            priority: ScanPriority::of_code(self.priority),
        }
    }

    open spec fn writable(item: ScanRange) -> bool {
        true
    }

    fn read_record(&self) -> (r: Result<ScanRange, Error>) {
        let priority = match self.priority {
            1 => ScanPriority::Scanned,
            2 => ScanPriority::Historic,
            3 => ScanPriority::OpenAdjacent,
            4 => ScanPriority::FoundNote,
            5 => ScanPriority::ChainTip,
            6 => ScanPriority::Verify,
            _ => ScanPriority::Ignored,
        };
        let range = ScanRange { start: self.start_height, end: self.end_height, priority };
        assert(range@ == range);
        Ok(range)
    }

    fn write_record(item: &ScanRange) -> (r: proto::ScanQueueRecord) {
        assert(item@ == *item);
        proto::ScanQueueRecord {
            start_height: item.start,
            end_height: item.end,
            priority: match item.priority {
                ScanPriority::Ignored => 0,
                ScanPriority::Scanned => 1,
                ScanPriority::Historic => 2,
                ScanPriority::OpenAdjacent => 3,
                ScanPriority::FoundNote => 4,
                ScanPriority::ChainTip => 5,
                ScanPriority::Verify => 6,
            },
        }
    }
}

/// Something that the wallet wants to know of the chain.
#[derive(Debug, PartialEq, Eq)]
pub enum TransactionDataRequest {
    /// Whether a transaction has been mined.
    GetStatus(TxId),
    /// The whole of a transaction.
    Enhancement(TxId),
    /// The transactions that involve an address, from a height on and up to before another.
    TransactionsInvolvingAddress { address: String, start: BlockHeight, end: Option<BlockHeight> },
}

/// What a [`TransactionDataRequest`] stands for.
pub enum RequestView {
    GetStatus(TxId),
    Enhancement(TxId),
    TransactionsInvolvingAddress { address: Seq<char>, start: BlockHeight, end: Option<BlockHeight> },
}

impl View for TransactionDataRequest {
    type V = RequestView;

    open spec fn view(&self) -> RequestView {
        match *self {
            TransactionDataRequest::GetStatus(txid) => RequestView::GetStatus(txid),
            TransactionDataRequest::Enhancement(txid) => RequestView::Enhancement(txid),
            TransactionDataRequest::TransactionsInvolvingAddress { address, start, end } =>
                RequestView::TransactionsInvolvingAddress { address: address@, start, end },
        }
    }
}

impl ListRecord for proto::TransactionDataRequest {
    type Item = TransactionDataRequest;

    open spec fn read_error(&self) -> Option<Error> {
        if self.request_type == proto::REQUEST_STATUS || self.request_type
            == proto::REQUEST_ENHANCEMENT {
            txid_error(self.tx_id)
        } else if self.request_type == proto::REQUEST_ADDRESS {
            if self.address is None {
                Some(Error::ProtoMissingField("address"))
            } else if self.block_range_start is None {
                Some(Error::ProtoMissingField("block_range_start"))
            } else {
                None
            }
        } else {
            Some(Error::InvalidRequest)
        }
    }

    open spec fn item(&self) -> RequestView {
        if self.request_type == proto::REQUEST_STATUS {
            RequestView::GetStatus(self.tx_id->0.id())
        } else if self.request_type == proto::REQUEST_ENHANCEMENT {
            RequestView::Enhancement(self.tx_id->0.id())
        } else {
            RequestView::TransactionsInvolvingAddress {
                address: self.address->0@,
                start: self.block_range_start->0,
                end: self.block_range_end,
            }
        }
    }

    open spec fn writable(item: RequestView) -> bool {
        true
    }

    fn read_record(&self) -> (r: Result<TransactionDataRequest, Error>) {
        let request = if self.request_type == proto::REQUEST_STATUS {
            match read_txid(&self.tx_id) {
                Ok(txid) => TransactionDataRequest::GetStatus(txid),
                Err(e) => {
                    return Err(e);
                },
            }
        } else if self.request_type == proto::REQUEST_ENHANCEMENT {
            match read_txid(&self.tx_id) {
                Ok(txid) => TransactionDataRequest::Enhancement(txid),
                Err(e) => {
                    return Err(e);
                },
            }
        } else if self.request_type == proto::REQUEST_ADDRESS {
            match (&self.address, self.block_range_start) {
                (None, _) => {
                    return Err(Error::ProtoMissingField("address"));
                },
                (_, None) => {
                    return Err(Error::ProtoMissingField("block_range_start"));
                },
                (Some(address), Some(start)) =>
                    TransactionDataRequest::TransactionsInvolvingAddress {
                    address: address.clone(),
                    start,
                    end: self.block_range_end,
                },
            }
        } else {
            return Err(Error::InvalidRequest);
        };
        assert(request@ == self.item());
        Ok(request)
    }

    fn write_record(item: &TransactionDataRequest) -> (r: proto::TransactionDataRequest) {
        let record = match item {
            TransactionDataRequest::GetStatus(txid) => proto::TransactionDataRequest {
                request_type: proto::REQUEST_STATUS,
                tx_id: Some(proto::TxId::from(txid)),
                address: None,
                block_range_start: None,
                block_range_end: None,
            },
            TransactionDataRequest::Enhancement(txid) => proto::TransactionDataRequest {
                request_type: proto::REQUEST_ENHANCEMENT,
                tx_id: Some(proto::TxId::from(txid)),
                address: None,
                block_range_start: None,
                block_range_end: None,
            },
            TransactionDataRequest::TransactionsInvolvingAddress { address, start, end } =>
                proto::TransactionDataRequest {
                request_type: proto::REQUEST_ADDRESS,
                tx_id: None,
                address: Some(address.clone()),
                block_range_start: Some(*start),
                block_range_end: *end,
            },
        };
        assert(record.item() == item@);
        record
    }
}

} // verus!
