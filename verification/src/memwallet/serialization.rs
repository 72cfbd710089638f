//! The wallet, how it is read from its records, and how it is written to them.

use vstd::prelude::*;

use crate::consensus::BlockHeight;
use crate::pool::ShieldedProtocol;
use crate::scanning::pools::AccountId;

use super::proto;
use super::record::all_writable;
use super::record::first_error;
use super::record::first_list_error;
use super::record::held;
use super::record::item_views;
use super::record::items;
use super::record::list_writable;
use super::record::list_written;
use super::record::read_list;
use super::record::read_table;
use super::record::write_list;
use super::record::write_table;
use super::record::written;
use super::record::Record;
use super::sanitize::is_legacy;
use super::sanitize::is_legacy_account;
use super::sanitize::sanitize_proto_wallet_v1;
use super::table::map_of;
use super::table::Table;
use super::tree::empty_tree;
use super::tree::lemma_empty_tree;
use super::tree::tree_from_protobuf;
use super::tree::tree_to_protobuf;
use super::tree::CommitmentTree;
use super::tree::TreeView;
use super::types::Address;
use super::types::Error;
use super::types::NoteId;
use super::types::Nullifier;
use super::types::OutPoint;
use super::types::OutputSpend;
use super::types::TxId;
use super::types::TxLocator;
use super::values::Account;
use super::values::AccountView;
use super::values::BlockView;
use super::values::MemoryWalletBlock;
use super::values::ReceivedNote;
use super::values::ReceivedNoteView;
use super::values::ReceivedTransparentOutput;
use super::values::RequestView;
use super::values::ScanRange;
use super::values::SentNote;
use super::values::SentNoteView;
use super::values::TransactionDataRequest;
use super::values::TransactionEntry;
use super::values::TransactionView;
use super::values::TransparentOutputView;

verus! {

/// The first version of the records, from before the Ironwood pool.
pub const MEMORY_WALLET_PROTO_V1: u32 = 1;

/// The latest version of the records.
pub const MEMORY_WALLET_PROTO_V2: u32 = 2;

/// How many checkpoints a tree keeps that is read from its record.
pub const STORED_TREE_CHECKPOINTS: usize = 100;

/// A wallet that is held in memory.
pub struct MemoryWalletDb<P> {
    pub params: P,
    pub accounts: Table<AccountId, Account>,
    pub account_nonce: u32,
    pub blocks: Table<BlockHeight, MemoryWalletBlock>,
    pub tx_table: Table<TxId, TransactionEntry>,
    pub received_notes: Vec<ReceivedNote>,
    pub received_note_spends: Table<NoteId, TxId>,
    pub nullifiers: Table<Nullifier, TxLocator>,
    pub sent_notes: Table<NoteId, SentNote>,
    pub tx_locator: Table<TxLocator, TxId>,
    pub scan_queue: Vec<ScanRange>,
    pub sapling_tree: CommitmentTree,
    pub sapling_tree_shard_end_heights: Table<Address, BlockHeight>,
    pub orchard_tree: CommitmentTree,
    pub orchard_tree_shard_end_heights: Table<Address, BlockHeight>,
    pub ironwood_tree: CommitmentTree,
    pub ironwood_tree_shard_end_heights: Table<Address, BlockHeight>,
    pub transparent_received_outputs: Table<OutPoint, ReceivedTransparentOutput>,
    pub transparent_received_output_spends: Table<OutPoint, TxId>,
    pub transparent_spend_map: Table<OutputSpend, ()>,
    pub transaction_data_request_queue: Vec<TransactionDataRequest>,
}

/// What a wallet holds.
pub struct WalletView {
    pub accounts: Map<AccountId, AccountView>,
    pub account_nonce: u32,
    pub blocks: Map<BlockHeight, BlockView>,
    pub tx_table: Map<TxId, TransactionView>,
    pub received_notes: Seq<ReceivedNoteView>,
    pub received_note_spends: Map<NoteId, TxId>,
    pub nullifiers: Map<Nullifier, TxLocator>,
    pub sent_notes: Map<NoteId, SentNoteView>,
    pub tx_locator: Map<TxLocator, TxId>,
    pub scan_queue: Seq<ScanRange>,
    pub sapling_tree: TreeView,
    pub sapling_tree_shard_end_heights: Map<Address, BlockHeight>,
    pub orchard_tree: TreeView,
    pub orchard_tree_shard_end_heights: Map<Address, BlockHeight>,
    pub ironwood_tree: TreeView,
    pub ironwood_tree_shard_end_heights: Map<Address, BlockHeight>,
    pub transparent_received_outputs: Map<OutPoint, TransparentOutputView>,
    pub transparent_received_output_spends: Map<OutPoint, TxId>,
    pub transparent_spend_map: Map<OutputSpend, ()>,
    pub transaction_data_requests: Seq<RequestView>,
}

impl<P> MemoryWalletDb<P> {
    /// What the wallet holds.
    pub open spec fn contents(self) -> WalletView {
        WalletView {
            accounts: self.accounts.map(),
            account_nonce: self.account_nonce,
            blocks: self.blocks.map(),
            tx_table: self.tx_table.map(),
            received_notes: item_views(self.received_notes@),
            received_note_spends: self.received_note_spends.map(),
            nullifiers: self.nullifiers.map(),
            sent_notes: self.sent_notes.map(),
            tx_locator: self.tx_locator.map(),
            scan_queue: item_views(self.scan_queue@),
            sapling_tree: self.sapling_tree@,
            sapling_tree_shard_end_heights: self.sapling_tree_shard_end_heights.map(),
            orchard_tree: self.orchard_tree@,
            orchard_tree_shard_end_heights: self.orchard_tree_shard_end_heights.map(),
            ironwood_tree: self.ironwood_tree@,
            ironwood_tree_shard_end_heights: self.ironwood_tree_shard_end_heights.map(),
            transparent_received_outputs: self.transparent_received_outputs.map(),
            transparent_received_output_spends: self.transparent_received_output_spends.map(),
            transparent_spend_map: self.transparent_spend_map.map(),
            transaction_data_requests: item_views(self.transaction_data_request_queue@),
        }
    }
}

impl WalletView {
    /// A wallet that holds nothing.
    pub open spec fn nothing() -> WalletView {
        WalletView {
            accounts: Map::empty(),
            account_nonce: 0,
            blocks: Map::empty(),
            tx_table: Map::empty(),
            received_notes: Seq::empty(),
            received_note_spends: Map::empty(),
            nullifiers: Map::empty(),
            sent_notes: Map::empty(),
            tx_locator: Map::empty(),
            scan_queue: Seq::empty(),
            sapling_tree: TreeView::empty(),
            sapling_tree_shard_end_heights: Map::empty(),
            orchard_tree: TreeView::empty(),
            orchard_tree_shard_end_heights: Map::empty(),
            ironwood_tree: TreeView::empty(),
            ironwood_tree_shard_end_heights: Map::empty(),
            transparent_received_outputs: Map::empty(),
            transparent_received_output_spends: Map::empty(),
            transparent_spend_map: Map::empty(),
            transaction_data_requests: Seq::empty(),
        }
    }

    /// Whether the wallet can be read back when it has been written: its blocks stand under their
    /// own heights, its amounts can exist, its memos are not too long, its notes and nullifiers
    /// are such, and its trees are encoded as they should be.
    pub open spec fn valid(self) -> bool {
        &&& all_writable::<proto::WalletBlock>(self.blocks)
        &&& all_writable::<proto::TransactionTableRecord>(self.tx_table)
        &&& list_writable::<proto::ReceivedNote>(self.received_notes)
        &&& all_writable::<proto::NullifierRecord>(self.nullifiers)
        &&& all_writable::<proto::SentNoteRecord>(self.sent_notes)
        &&& self.sapling_tree.valid(ShieldedProtocol::Sapling)
        &&& self.orchard_tree.valid(ShieldedProtocol::Orchard)
        &&& self.ironwood_tree.valid(ShieldedProtocol::Orchard)
        &&& all_writable::<proto::TransparentReceivedOutputRecord>(
            self.transparent_received_outputs,
        )
    }
}

/// The first of two errors.
pub open spec fn either(a: Option<Error>, b: Option<Error>) -> Option<Error> {
    match a {
        Some(e) => Some(e),
        None => b,
    }
}

/// Why a tree that must be there cannot be read.
pub open spec fn tree_error(
    protocol: ShieldedProtocol,
    tree: Option<proto::ShardTree>,
    missing: Option<Error>,
) -> Option<Error> {
    match tree {
        None => missing,
        Some(tree) => if tree.tree().valid(protocol) {
            None
        } else {
            Some(Error::InvalidTree)
        },
    }
}

impl proto::MemoryWallet {
    /// Why records of the latest version cannot be read: the first of them, in their order, that
    /// cannot be read.
    pub open spec fn error(self) -> Option<Error> {
        either(
            match self.accounts {
                None => Some(Error::ProtoMissingField("accounts")),
                Some(accounts) => first_error(accounts.accounts@),
            },
            either(
                first_error(self.blocks@),
                either(
                    first_error(self.tx_table@),
                    either(
                        first_list_error(self.received_note_table@),
                        either(
                            first_error(self.received_note_spends@),
                            either(
                                first_error(self.nullifiers@),
                                either(
                                    first_error(self.sent_notes@),
                                    either(first_error(self.tx_locator@), self.tree_errors()),
                                ),
                            ),
                        ),
                    ),
                ),
            ),
        )
    }

    /// Why the records from the trees on cannot be read.
    pub open spec fn tree_errors(self) -> Option<Error> {
        either(
            tree_error(
                ShieldedProtocol::Sapling,
                self.sapling_tree,
                Some(Error::ProtoMissingField("sapling_tree")),
            ),
            either(
                first_error(self.sapling_tree_shard_end_heights@),
                either(
                    tree_error(
                        ShieldedProtocol::Orchard,
                        self.orchard_tree,
                        Some(Error::ProtoMissingField("orchard_tree")),
                    ),
                    either(
                        first_error(self.orchard_tree_shard_end_heights@),
                        either(
                            tree_error(ShieldedProtocol::Orchard, self.ironwood_tree, None),
                            either(
                                first_error(self.ironwood_tree_shard_end_heights@),
                                self.transparent_errors(),
                            ),
                        ),
                    ),
                ),
            ),
        )
    }

    /// Why the records from the transparent ones on cannot be read.
    pub open spec fn transparent_errors(self) -> Option<Error> {
        either(
            first_error(self.transparent_received_outputs@),
            either(
                first_error(self.transparent_received_output_spends@),
                either(
                    first_error(self.transparent_spend_map@),
                    first_list_error(self.transaction_data_requests@),
                ),
            ),
        )
    }

    /// The wallet that records of the latest version hold. Where there is no Ironwood tree, it is
    /// empty.
    pub open spec fn contents(self) -> WalletView {
        WalletView {
            accounts: map_of(held(self.accounts->0.accounts@)),
            account_nonce: self.accounts->0.account_nonce,
            blocks: map_of(held(self.blocks@)),
            tx_table: map_of(held(self.tx_table@)),
            received_notes: items(self.received_note_table@),
            received_note_spends: map_of(held(self.received_note_spends@)),
            nullifiers: map_of(held(self.nullifiers@)),
            sent_notes: map_of(held(self.sent_notes@)),
            tx_locator: map_of(held(self.tx_locator@)),
            scan_queue: items(self.scan_queue@),
            sapling_tree: self.sapling_tree->0.tree(),
            sapling_tree_shard_end_heights: map_of(held(self.sapling_tree_shard_end_heights@)),
            orchard_tree: self.orchard_tree->0.tree(),
            orchard_tree_shard_end_heights: map_of(held(self.orchard_tree_shard_end_heights@)),
            ironwood_tree: match self.ironwood_tree {
                Some(tree) => tree.tree(),
                None => TreeView::empty(),
            },
            ironwood_tree_shard_end_heights: map_of(held(self.ironwood_tree_shard_end_heights@)),
            transparent_received_outputs: map_of(held(self.transparent_received_outputs@)),
            transparent_received_output_spends: map_of(
                held(self.transparent_received_output_spends@),
            ),
            transparent_spend_map: map_of(held(self.transparent_spend_map@)),
            transaction_data_requests: items(self.transaction_data_requests@),
        }
    }
}

/// Whether `r` is what reading records of the latest version gives. A tree that is read keeps a
/// fixed number of checkpoints, and an Ironwood tree that is missing the given number.
pub open spec fn reads<P>(
    r: Result<MemoryWalletDb<P>, Error>,
    record: proto::MemoryWallet,
    params: P,
    max_checkpoints: usize,
) -> bool {
    match record.error() {
        Some(e) => r matches Err(f) && f == e,
        None => {
            &&& r matches Ok(wallet)
            &&& wallet.params == params
            &&& wallet.contents() == record.contents()
            &&& wallet.contents().valid()
            &&& wallet.sapling_tree.max_checkpoints == STORED_TREE_CHECKPOINTS
            &&& wallet.orchard_tree.max_checkpoints == STORED_TREE_CHECKPOINTS
            &&& wallet.ironwood_tree.max_checkpoints == if record.ironwood_tree is Some {
                STORED_TREE_CHECKPOINTS
            } else {
                max_checkpoints
            }
        },
    }
}

/// Reads a tree that may be missing.
fn read_tree(protocol: ShieldedProtocol, record: &Option<proto::ShardTree>, missing: Error) -> (r:
    Result<CommitmentTree, Error>)
    ensures
        match tree_error(protocol, *record, Some(missing)) {
            Some(e) => r matches Err(f) && f == e,
            None => r matches Ok(tree) && tree@ == (*record)->0.tree() && tree@.valid(protocol)
                && tree.max_checkpoints == STORED_TREE_CHECKPOINTS,
        },
{
    match record {
        Some(record) => tree_from_protobuf(protocol, record, STORED_TREE_CHECKPOINTS),
        None => Err(missing),
    }
}

impl<P> MemoryWalletDb<P> {
    /// A wallet that holds nothing, whose trees keep so many checkpoints.
    pub fn new(params: P, max_checkpoints: usize) -> (r: MemoryWalletDb<P>)
        ensures
            r.params == params,
            r.sapling_tree.max_checkpoints == max_checkpoints,
            r.orchard_tree.max_checkpoints == max_checkpoints,
            r.ironwood_tree.max_checkpoints == max_checkpoints,
            r.contents() == WalletView::nothing(),
            r.contents().valid(),
    {
        let wallet = MemoryWalletDb {
            params,
            accounts: Table::new(),
            account_nonce: 0,
            blocks: Table::new(),
            tx_table: Table::new(),
            received_notes: Vec::new(),
            received_note_spends: Table::new(),
            nullifiers: Table::new(),
            sent_notes: Table::new(),
            tx_locator: Table::new(),
            scan_queue: Vec::new(),
            sapling_tree: empty_tree(max_checkpoints),
            sapling_tree_shard_end_heights: Table::new(),
            orchard_tree: empty_tree(max_checkpoints),
            orchard_tree_shard_end_heights: Table::new(),
            ironwood_tree: empty_tree(max_checkpoints),
            ironwood_tree_shard_end_heights: Table::new(),
            transparent_received_outputs: Table::new(),
            transparent_received_output_spends: Table::new(),
            transparent_spend_map: Table::new(),
            transaction_data_request_queue: Vec::new(),
        };
        proof {
            lemma_empty_tree(ShieldedProtocol::Sapling);
            lemma_empty_tree(ShieldedProtocol::Orchard);
            assert(wallet.contents().received_notes =~= Seq::empty());
            assert(wallet.contents().scan_queue =~= Seq::empty());
            assert(wallet.contents().transaction_data_requests =~= Seq::empty());
        }
        wallet
    }

    /// Reads a wallet from records of the latest version.
    fn new_from_proto_v2(proto_wallet: &proto::MemoryWallet, params: P, max_checkpoints: usize) -> (r:
        Result<MemoryWalletDb<P>, Error>)
        ensures
            if proto_wallet.version == MEMORY_WALLET_PROTO_V2 {
                reads(r, *proto_wallet, params, max_checkpoints)
            } else {
                r matches Err(e) && e == Error::UnsupportedProtoVersion(
                    MEMORY_WALLET_PROTO_V2,
                    proto_wallet.version,
                )
            },
    {
        if proto_wallet.version != MEMORY_WALLET_PROTO_V2 {
            return Err(
                Error::UnsupportedProtoVersion(MEMORY_WALLET_PROTO_V2, proto_wallet.version),
            );
        }
        let proto_accounts = match &proto_wallet.accounts {
            Some(accounts) => accounts,
            None => {
                return Err(Error::ProtoMissingField("accounts"));
            },
        };
        let accounts = match read_table::<proto::Account>(&proto_accounts.accounts) {
            Ok(table) => table,
            Err(e) => {
                return Err(e);
            },
        };
        let blocks = match read_table::<proto::WalletBlock>(&proto_wallet.blocks) {
            Ok(table) => table,
            Err(e) => {
                return Err(e);
            },
        };
        let tx_table = match read_table::<proto::TransactionTableRecord>(&proto_wallet.tx_table) {
            Ok(table) => table,
            Err(e) => {
                return Err(e);
            },
        };
        let received_notes = match read_list::<proto::ReceivedNote>(
            &proto_wallet.received_note_table,
        ) {
            Ok(list) => list,
            Err(e) => {
                return Err(e);
            },
        };
        let received_note_spends = match read_table::<proto::ReceivedNoteSpendRecord>(
            &proto_wallet.received_note_spends,
        ) {
            Ok(table) => table,
            Err(e) => {
                return Err(e);
            },
        };
        let nullifiers = match read_table::<proto::NullifierRecord>(&proto_wallet.nullifiers) {
            Ok(table) => table,
            Err(e) => {
                return Err(e);
            },
        };
        let sent_notes = match read_table::<proto::SentNoteRecord>(&proto_wallet.sent_notes) {
            Ok(table) => table,
            Err(e) => {
                return Err(e);
            },
        };
        let tx_locator = match read_table::<proto::TxLocatorRecord>(&proto_wallet.tx_locator) {
            Ok(table) => table,
            Err(e) => {
                return Err(e);
            },
        };
        proof {
            lemma_scan_queue_readable(proto_wallet.scan_queue@);
        }
        let scan_queue = match read_list::<proto::ScanQueueRecord>(&proto_wallet.scan_queue) {
            Ok(list) => list,
            Err(e) => {
                assert(false);
                return Err(e);
            },
        };
        let sapling_tree = match read_tree(
            ShieldedProtocol::Sapling,
            &proto_wallet.sapling_tree,
            Error::ProtoMissingField("sapling_tree"),
        ) {
            Ok(tree) => tree,
            Err(e) => {
                return Err(e);
            },
        };
        let sapling_tree_shard_end_heights = match read_table::<proto::TreeEndHeightsRecord>(
            &proto_wallet.sapling_tree_shard_end_heights,
        ) {
            Ok(table) => table,
            Err(e) => {
                return Err(e);
            },
        };
        let orchard_tree = match read_tree(
            ShieldedProtocol::Orchard,
            &proto_wallet.orchard_tree,
            Error::ProtoMissingField("orchard_tree"),
        ) {
            Ok(tree) => tree,
            Err(e) => {
                return Err(e);
            },
        };
        let orchard_tree_shard_end_heights = match read_table::<proto::TreeEndHeightsRecord>(
            &proto_wallet.orchard_tree_shard_end_heights,
        ) {
            Ok(table) => table,
            Err(e) => {
                return Err(e);
            },
        };
        proof {
            lemma_empty_tree(ShieldedProtocol::Orchard);
        }
        let ironwood_tree = match &proto_wallet.ironwood_tree {
            Some(record) => match tree_from_protobuf(
                ShieldedProtocol::Orchard,
                record,
                STORED_TREE_CHECKPOINTS,
            ) {
                Ok(tree) => tree,
                Err(e) => {
                    return Err(e);
                },
            },
            None => empty_tree(max_checkpoints),
        };
        let ironwood_tree_shard_end_heights = match read_table::<proto::TreeEndHeightsRecord>(
            &proto_wallet.ironwood_tree_shard_end_heights,
        ) {
            Ok(table) => table,
            Err(e) => {
                return Err(e);
            },
        };
        let transparent_received_outputs = match read_table::<
            proto::TransparentReceivedOutputRecord,
        >(&proto_wallet.transparent_received_outputs) {
            Ok(table) => table,
            Err(e) => {
                return Err(e);
            },
        };
        let transparent_received_output_spends = match read_table::<
            proto::TransparentReceivedOutputSpendRecord,
        >(&proto_wallet.transparent_received_output_spends) {
            Ok(table) => table,
            Err(e) => {
                return Err(e);
            },
        };
        let transparent_spend_map = match read_table::<proto::TransparentSpendCacheRecord>(
            &proto_wallet.transparent_spend_map,
        ) {
            Ok(table) => table,
            Err(e) => {
                return Err(e);
            },
        };
        let transaction_data_request_queue = match read_list::<proto::TransactionDataRequest>(
            &proto_wallet.transaction_data_requests,
        ) {
            Ok(list) => list,
            Err(e) => {
                return Err(e);
            },
        };
        Ok(
            MemoryWalletDb {
                params,
                accounts,
                account_nonce: proto_accounts.account_nonce,
                blocks,
                tx_table,
                received_notes,
                received_note_spends,
                nullifiers,
                sent_notes,
                tx_locator,
                scan_queue,
                sapling_tree,
                sapling_tree_shard_end_heights,
                orchard_tree,
                orchard_tree_shard_end_heights,
                ironwood_tree,
                ironwood_tree_shard_end_heights,
                transparent_received_outputs,
                transparent_received_output_spends,
                transparent_spend_map,
                transaction_data_request_queue,
            },
        )
    }

    /// Reads a wallet from records of the first version: what they say of the Ironwood pool is
    /// passed over, and they are then read as records of the latest version.
    fn new_from_proto_v1(proto_wallet: proto::MemoryWallet, params: P, max_checkpoints: usize) -> (r:
        Result<MemoryWalletDb<P>, Error>)
        ensures
            if proto_wallet.version == MEMORY_WALLET_PROTO_V1 {
                exists|q: proto::MemoryWallet| #[trigger]
                    is_legacy(proto_wallet, q) && reads(r, q, params, max_checkpoints)
            } else {
                r matches Err(e) && e == Error::UnsupportedProtoVersion(
                    MEMORY_WALLET_PROTO_V1,
                    proto_wallet.version,
                )
            },
    {
        if proto_wallet.version != MEMORY_WALLET_PROTO_V1 {
            return Err(
                Error::UnsupportedProtoVersion(MEMORY_WALLET_PROTO_V1, proto_wallet.version),
            );
        }
        let mut sanitized = proto_wallet;
        sanitize_proto_wallet_v1(&mut sanitized);
        let ghost q = sanitized;
        sanitized.version = MEMORY_WALLET_PROTO_V2;
        let r = MemoryWalletDb::new_from_proto_v2(&sanitized, params, max_checkpoints);
        proof {
            lemma_version_unread(q, sanitized);
            assert(is_legacy(proto_wallet, q) && reads(r, q, params, max_checkpoints));
        }
        r
    }

    /// Reads a wallet from records of any version that is known.
    pub fn new_from_proto(proto_wallet: proto::MemoryWallet, params: P, max_checkpoints: usize) -> (r:
        Result<MemoryWalletDb<P>, Error>)
        ensures
            if proto_wallet.version == MEMORY_WALLET_PROTO_V1 {
                exists|q: proto::MemoryWallet| #[trigger]
                    is_legacy(proto_wallet, q) && reads(r, q, params, max_checkpoints)
            } else if proto_wallet.version == MEMORY_WALLET_PROTO_V2 {
                reads(r, proto_wallet, params, max_checkpoints)
            } else {
                r matches Err(e) && e == Error::UnsupportedProtoVersion(
                    MEMORY_WALLET_PROTO_V2,
                    proto_wallet.version,
                )
            },
    {
        if proto_wallet.version == MEMORY_WALLET_PROTO_V1 {
            MemoryWalletDb::new_from_proto_v1(proto_wallet, params, max_checkpoints)
        } else if proto_wallet.version == MEMORY_WALLET_PROTO_V2 {
            MemoryWalletDb::new_from_proto_v2(&proto_wallet, params, max_checkpoints)
        } else {
            Err(Error::UnsupportedProtoVersion(MEMORY_WALLET_PROTO_V2, proto_wallet.version))
        }
    }
}

/// Whether there are records for all that a wallet holds, those of each table in the order of its
/// keys, from which each entry can be read back if it can be at all.
pub open spec fn wallet_written<P>(record: proto::MemoryWallet, wallet: MemoryWalletDb<P>) -> bool {
    &&& record.accounts matches Some(accounts)
    &&& written(accounts.accounts@, wallet.accounts.pair_seq())
    &&& accounts.account_nonce == wallet.account_nonce
    &&& written(record.blocks@, wallet.blocks.pair_seq())
    &&& written(record.tx_table@, wallet.tx_table.pair_seq())
    &&& list_written(record.received_note_table@, item_views(wallet.received_notes@))
    &&& written(record.received_note_spends@, wallet.received_note_spends.pair_seq())
    &&& written(record.nullifiers@, wallet.nullifiers.pair_seq())
    &&& written(record.sent_notes@, wallet.sent_notes.pair_seq())
    &&& written(record.tx_locator@, wallet.tx_locator.pair_seq())
    &&& list_written(record.scan_queue@, item_views(wallet.scan_queue@))
    &&& record.sapling_tree matches Some(sapling_tree)
    &&& sapling_tree.tree() == wallet.sapling_tree@
    &&& written(
        record.sapling_tree_shard_end_heights@,
        wallet.sapling_tree_shard_end_heights.pair_seq(),
    )
    &&& record.orchard_tree matches Some(orchard_tree)
    &&& orchard_tree.tree() == wallet.orchard_tree@
    &&& written(
        record.orchard_tree_shard_end_heights@,
        wallet.orchard_tree_shard_end_heights.pair_seq(),
    )
    &&& record.ironwood_tree matches Some(ironwood_tree)
    &&& ironwood_tree.tree() == wallet.ironwood_tree@
    &&& written(
        record.ironwood_tree_shard_end_heights@,
        wallet.ironwood_tree_shard_end_heights.pair_seq(),
    )
    &&& written(
        record.transparent_received_outputs@,
        wallet.transparent_received_outputs.pair_seq(),
    )
    &&& written(
        record.transparent_received_output_spends@,
        wallet.transparent_received_output_spends.pair_seq(),
    )
    &&& written(record.transparent_spend_map@, wallet.transparent_spend_map.pair_seq())
    &&& list_written(
        record.transaction_data_requests@,
        item_views(wallet.transaction_data_request_queue@),
    )
}

/// Whether the records of the tables of a wallet stand in the order of their keys.
pub open spec fn in_order<P>(record: proto::MemoryWallet, wallet: MemoryWalletDb<P>) -> bool {
    &&& record.accounts is Some
    &&& held(record.accounts->0.accounts@) == wallet.accounts.pair_seq()
    &&& held(record.blocks@) == wallet.blocks.pair_seq()
    &&& held(record.tx_table@) == wallet.tx_table.pair_seq()
    &&& held(record.received_note_spends@) == wallet.received_note_spends.pair_seq()
    &&& held(record.nullifiers@) == wallet.nullifiers.pair_seq()
    &&& held(record.sent_notes@) == wallet.sent_notes.pair_seq()
    &&& held(record.tx_locator@) == wallet.tx_locator.pair_seq()
    &&& held(record.sapling_tree_shard_end_heights@)
        == wallet.sapling_tree_shard_end_heights.pair_seq()
    &&& held(record.orchard_tree_shard_end_heights@)
        == wallet.orchard_tree_shard_end_heights.pair_seq()
    &&& held(record.ironwood_tree_shard_end_heights@)
        == wallet.ironwood_tree_shard_end_heights.pair_seq()
    &&& held(record.transparent_received_outputs@)
        == wallet.transparent_received_outputs.pair_seq()
    &&& held(record.transparent_received_output_spends@)
        == wallet.transparent_received_output_spends.pair_seq()
    &&& held(record.transparent_spend_map@) == wallet.transparent_spend_map.pair_seq()
}

impl proto::MemoryWallet {
    /// Writes a wallet to records of the latest version, those of each table in the order of
    /// their keys. Those of a valid wallet can be read, and hold what the wallet holds. In any
    /// wallet, an entry that can be read back can be whatever else the wallet holds; a block is
    /// written with its own height.
    pub fn from<P>(wallet: &MemoryWalletDb<P>) -> (r: proto::MemoryWallet)
        ensures
            r.version == MEMORY_WALLET_PROTO_V2,
            wallet_written(r, *wallet),
            wallet.contents().valid() ==> {
                &&& r.error() is None
                &&& r.contents() == wallet.contents()
                &&& in_order(r, *wallet)
            },
    {
        proto::MemoryWallet {
            version: MEMORY_WALLET_PROTO_V2,
            accounts: Some(
                proto::Accounts {
                    accounts: write_table::<proto::Account>(&wallet.accounts),
                    account_nonce: wallet.account_nonce,
                },
            ),
            blocks: write_table::<proto::WalletBlock>(&wallet.blocks),
            tx_table: write_table::<proto::TransactionTableRecord>(&wallet.tx_table),
            received_note_table: write_list::<proto::ReceivedNote>(&wallet.received_notes),
            received_note_spends: write_table::<proto::ReceivedNoteSpendRecord>(
                &wallet.received_note_spends,
            ),
            nullifiers: write_table::<proto::NullifierRecord>(&wallet.nullifiers),
            sent_notes: write_table::<proto::SentNoteRecord>(&wallet.sent_notes),
            tx_locator: write_table::<proto::TxLocatorRecord>(&wallet.tx_locator),
            scan_queue: write_list::<proto::ScanQueueRecord>(&wallet.scan_queue),
            sapling_tree: Some(tree_to_protobuf(&wallet.sapling_tree)),
            sapling_tree_shard_end_heights: write_table::<proto::TreeEndHeightsRecord>(
                &wallet.sapling_tree_shard_end_heights,
            ),
            orchard_tree: Some(tree_to_protobuf(&wallet.orchard_tree)),
            orchard_tree_shard_end_heights: write_table::<proto::TreeEndHeightsRecord>(
                &wallet.orchard_tree_shard_end_heights,
            ),
            ironwood_tree: Some(tree_to_protobuf(&wallet.ironwood_tree)),
            ironwood_tree_shard_end_heights: write_table::<proto::TreeEndHeightsRecord>(
                &wallet.ironwood_tree_shard_end_heights,
            ),
            transparent_received_outputs: write_table::<proto::TransparentReceivedOutputRecord>(
                &wallet.transparent_received_outputs,
            ),
            transparent_received_output_spends: write_table::<
                proto::TransparentReceivedOutputSpendRecord,
            >(&wallet.transparent_received_output_spends),
            transparent_spend_map: write_table::<proto::TransparentSpendCacheRecord>(
                &wallet.transparent_spend_map,
            ),
            transaction_data_requests: write_list::<proto::TransactionDataRequest>(
                &wallet.transaction_data_request_queue,
            ),
        }
    }
}

/// A wallet that was written and is read again holds what it held when it was written. How many
/// checkpoints its trees keep is not stored.
pub proof fn lemma_written_wallet_is_read<P>(
    wallet: MemoryWalletDb<P>,
    record: proto::MemoryWallet,
    r: Result<MemoryWalletDb<P>, Error>,
    params: P,
    max_checkpoints: usize,
)
    requires
        wallet.contents().valid(),
        record.error() is None,
        record.contents() == wallet.contents(),
        record.ironwood_tree is Some,
        reads(r, record, params, max_checkpoints),
    ensures
        r is Ok,
        r->Ok_0.contents() == wallet.contents(),
        r->Ok_0.sapling_tree.max_checkpoints == STORED_TREE_CHECKPOINTS,
        r->Ok_0.orchard_tree.max_checkpoints == STORED_TREE_CHECKPOINTS,
        r->Ok_0.ironwood_tree.max_checkpoints == STORED_TREE_CHECKPOINTS,
{
}

/// What is read does not depend on the version.
proof fn lemma_version_unread(a: proto::MemoryWallet, b: proto::MemoryWallet)
    requires
        (proto::MemoryWallet { version: b.version, ..a }) == b,
    ensures
        a.error() == b.error(),
        a.contents() == b.contents(),
{
}

/// Two accounts without what they say of the Ironwood pool read alike.
proof fn lemma_accounts_alike(
    a: Seq<proto::Account>,
    x: Seq<proto::Account>,
    y: Seq<proto::Account>,
)
    requires
        x.len() == a.len(),
        y.len() == a.len(),
        forall|i: int| 0 <= i < a.len() ==> is_legacy_account(a[i], #[trigger] x[i]),
        forall|i: int| 0 <= i < a.len() ==> is_legacy_account(a[i], #[trigger] y[i]),
    ensures
        first_error(x) == first_error(y),
        held(x) == held(y),
    decreases a.len(),
{
    assert forall|i: int| 0 <= i < a.len() implies (#[trigger] x[i]).read_error()
        == y[i].read_error() && x[i].key() == y[i].key() && x[i].value() == y[i].value() by {
        assert(is_legacy_account(a[i], x[i]));
        assert(is_legacy_account(a[i], y[i]));
    }
    assert(held(x) =~= held(y));
    if a.len() > 0 {
        assert forall|i: int| 0 <= i < a.len() - 1 implies is_legacy_account(
            a.drop_last()[i],
            #[trigger] x.drop_last()[i],
        ) && is_legacy_account(a.drop_last()[i], y.drop_last()[i]) by {
            assert(is_legacy_account(a[i], x[i]));
            assert(is_legacy_account(a[i], y[i]));
        }
        assert forall|i: int| 0 <= i < a.len() - 1 implies is_legacy_account(
            a.drop_last()[i],
            #[trigger] y.drop_last()[i],
        ) by {
            assert(is_legacy_account(a[i], y[i]));
        }
        lemma_accounts_alike(a.drop_last(), x.drop_last(), y.drop_last());
    }
}

/// All records that say the same but for the Ironwood pool, of which they say nothing, are read
/// alike.
pub proof fn lemma_legacy_read_alike(
    a: proto::MemoryWallet,
    x: proto::MemoryWallet,
    y: proto::MemoryWallet,
)
    requires
        is_legacy(a, x),
        is_legacy(a, y),
    ensures
        x.error() == y.error(),
        x.error() is None ==> x.contents() == y.contents(),
{
    if a.accounts is Some {
        lemma_accounts_alike(
            a.accounts->0.accounts@,
            x.accounts->0.accounts@,
            y.accounts->0.accounts@,
        );
    }
}

/// A wallet that is read from records of the first version holds no Ironwood tree and no end
/// heights of one.
pub proof fn lemma_legacy_has_no_ironwood_tree(a: proto::MemoryWallet, b: proto::MemoryWallet)
    requires
        is_legacy(a, b),
    ensures
        b.contents().ironwood_tree == TreeView::empty(),
        b.contents().ironwood_tree_shard_end_heights == Map::<Address, BlockHeight>::empty(),
{
    assert(held(b.ironwood_tree_shard_end_heights@) =~= Seq::empty());
}

/// The records of the scan queue can always be read.
proof fn lemma_scan_queue_readable(records: Seq<proto::ScanQueueRecord>)
    ensures
        first_list_error(records) is None,
    decreases records.len(),
{
    if records.len() > 0 {
        lemma_scan_queue_readable(records.drop_last());
    }
}

} // verus!
