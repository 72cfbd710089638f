//! What is read from the records of a wallet, and what is written to them, field by field.

use vstd::prelude::*;

use crate::consensus::BlockHeight;
use crate::field::lemma_array_of;
use crate::field::pallas_base_canonical;
use crate::pool::NoteVersion;
use crate::pool::ShieldedProtocol;
use crate::scanning::pools::AccountId;
use crate::scanning::pools::SaplingNoteForm;
use crate::scanning::pools::Scope;
use crate::value::MAX_MONEY;

use super::notes::note_valid;
use super::notes::nullifier_valid;
use super::notes::Note;
use super::proto;
use super::record::first_error;
use super::record::first_list_error;
use super::record::held;
use super::record::item_views;
use super::record::items;
use super::record::ListRecord;
use super::record::Record;
use super::sanitize::is_legacy;
use super::sanitize::is_legacy_account;
use super::sanitize::legacy_block;
use super::sanitize::legacy_received;
use super::sanitize::legacy_sent;
use super::serialization::reads;
use super::serialization::MemoryWalletDb;
use super::table::map_of;
use super::tree::tree_encoded;
use super::tree::tree_from_protobuf;
use super::tree::CommitmentTree;
use super::tree::TreeView;
use super::types::Address;
use super::types::Error;
use super::types::NoteId;
use super::types::Nullifier;
use super::types::OutPoint;
use super::types::OutputSpend;
use super::types::TxId;
use super::types::TxLocator;
use super::values::Account;
use super::values::AccountView;
use super::values::BlockView;
use super::values::Memo;
use super::values::MemoryWalletBlock;
use super::values::ReceivedNote;
use super::values::ReceivedNoteView;
use super::values::ReceivedTransparentOutput;
use super::values::Recipient;
use super::values::RecipientView;
use super::values::ScanRange;
use super::values::SentNote;
use super::values::SentNoteView;
use super::values::TransactionDataRequest;
use super::values::TransactionEntry;

verus! {

/// Whether a record names a transaction.
pub open spec fn names_tx(record: Option<proto::TxId>, txid: TxId) -> bool {
    record matches Some(id) && id.hash@ == txid.bytes@
}

/// Whether a record names a transparent output.
pub open spec fn names_output(record: Option<proto::OutPoint>, outpoint: OutPoint) -> bool {
    record matches Some(point) && point.hash@ == outpoint.hash@ && point.index == outpoint.n
}

/// Whether a record names a note: the transaction and the output that created it, with 1 for the
/// Sapling pool and 2 for the Orchard pool.
pub open spec fn names_note(record: Option<proto::NoteId>, id: NoteId) -> bool {
    record matches Some(r) && {
        &&& names_tx(r.tx_id, id.txid)
        &&& r.pool == (match id.protocol {
            ShieldedProtocol::Sapling => 1i32,
            ShieldedProtocol::Orchard => 2i32,
        })
        &&& r.output_index == id.output_index
    }
}

/// Whether a record holds a nullifier, with 0 for the Sapling pool and 1 for the Orchard pool.
pub open spec fn holds_nullifier(record: proto::Nullifier, nf: Nullifier) -> bool {
    &&& record.nullifier@ == nf.bytes@
    &&& record.protocol == (match nf.protocol {
        ShieldedProtocol::Sapling => 0i32,
        ShieldedProtocol::Orchard => 1i32,
    })
}

/// Whether a record holds a note: its recipient, value and seed, and beside them for an Orchard note
/// its `rho` and version. A record without a version holds a note of version 2.
pub open spec fn holds_note(record: Option<proto::Note>, note: Note) -> bool {
    record matches Some(r) && r.rseed matches Some(seed) && match note {
        Note::Sapling(n) => {
            &&& r.protocol == 0
            &&& r.recipient@ == n.recipient@
            &&& r.value == n.value
            &&& seed.payload@ == n.rseed@
            &&& seed.rseed_type == (match n.form {
                SaplingNoteForm::BeforeZip212 => 0i32,
                SaplingNoteForm::AfterZip212 => 1i32,
            })
        },
        Note::Orchard(n) => {
            &&& r.protocol == 1
            &&& r.recipient@ == n.recipient@
            &&& r.value == n.value
            &&& seed.payload@ == n.rseed@
            &&& r.rho matches Some(rho) && rho@ == n.rho@
            &&& match n.version {
                NoteVersion::V2 => r.orchard_note_version is None || r.orchard_note_version == Some(
                    2u32,
                ),
                NoteVersion::V3 => r.orchard_note_version == Some(3u32),
            }
        },
    }
}

/// What names a transaction is read as it.
proof fn lemma_tx_named(record: Option<proto::TxId>, txid: TxId)
    requires
        names_tx(record, txid),
    ensures
        record->0.error() is None,
        record->0.id() == txid,
{
    lemma_array_of(txid.bytes);
}

/// What names a transparent output is read as it.
proof fn lemma_output_named(record: Option<proto::OutPoint>, outpoint: OutPoint)
    requires
        names_output(record, outpoint),
    ensures
        record->0.error() is None,
        record->0.point() == outpoint,
{
    lemma_array_of(outpoint.hash);
}

/// What names a note is read as it.
proof fn lemma_note_named(record: Option<proto::NoteId>, id: NoteId)
    requires
        names_note(record, id),
    ensures
        record->0.error() is None,
        record->0.id() == id,
{
    lemma_tx_named(record->0.tx_id, id.txid);
}

/// What holds a nullifier is read as it.
proof fn lemma_nullifier_held(record: proto::Nullifier, nf: Nullifier)
    requires
        holds_nullifier(record, nf),
        nullifier_valid(nf),
    ensures
        record.error() is None,
        record.nf() == nf,
{
    lemma_array_of(nf.bytes);
}

/// What holds a note is read as it.
proof fn lemma_note_held(record: Option<proto::Note>, note: Note)
    requires
        holds_note(record, note),
        note_valid(note),
    ensures
        record->0.error() is None,
        record->0.note() == note,
{
    match note {
        Note::Sapling(n) => {
            lemma_array_of(n.recipient);
            lemma_array_of(n.rseed);
        },
        Note::Orchard(n) => {
            lemma_array_of(n.recipient);
            lemma_array_of(n.rseed);
            lemma_array_of(n.rho);
        },
    }
}

/// A note is written as what holds it, and is read from that.
pub proof fn lemma_note_record(
    note: Note,
    record: proto::Note,
    r: Result<Note, Error>,
)
    requires
        note_valid(note),
        holds_note(Some(record), note),
        call_ensures(proto::Note::read, (&record,), r),
    ensures
        r == Ok::<Note, Error>(note),
{
    lemma_note_held(Some(record), note);
}

/// A transaction is read with the block that it is in, its place there, its expiry height, its bytes,
/// its fee and its target height, as its record holds them. Only a fee that cannot exist is refused.
pub proof fn lemma_transaction_record(
    record: proto::TransactionTableRecord,
    txid: TxId,
    r: Result<(TxId, TransactionEntry), Error>,
)
    requires
        names_tx(record.tx_id, txid),
        record.tx_entry is Some,
        call_ensures(proto::TransactionTableRecord::read_record, (&record,), r),
    ensures
        ({
            let entry = record.tx_entry->0;
            match r {
                Ok((key, tx)) => {
                    &&& key == txid
                    &&& tx.block == entry.block
                    &&& tx.tx_index == entry.tx_index
                    &&& tx.expiry_height == entry.expiry_height
                    &&& match (tx.raw_tx, entry.raw_tx) {
                        (Some(a), Some(b)) => a@ == b@,
                        (None, None) => true,
                        _ => false,
                    }
                    &&& tx.fee == entry.fee
                    &&& tx.target_height == entry.target_height
                },
                Err(e) => e is InvalidValue && entry.fee is Some && entry.fee->0 > MAX_MONEY,
            }
        }),
{
    lemma_tx_named(record.tx_id, txid);
}

/// An account is read under its number, with its name, its key and its birthday, as its record holds
/// them, when the hash of the block before its first is 32 bytes long.
pub proof fn lemma_account_record(record: proto::Account, r: Result<(AccountId, Account), Error>)
    requires
        call_ensures(proto::Account::read_record, (&record,), r),
        record.birthday matches Some(birthday) && (birthday.prior_chain_state matches Some(state)
            && state.block_hash@.len() == 32),
    ensures
        ({
            let birthday = record.birthday->0;
            let state = birthday.prior_chain_state->0;
            r matches Ok((key, account)) && {
                &&& key == record.account_id
                &&& account.name@ == record.account_name@
                &&& account.viewing_key@ == record.viewing_key@
                &&& account.birthday_height == state.block_height
                &&& account.birthday_hash@ == state.block_hash@
                &&& account.final_sapling_tree@ == state.final_sapling_tree@
                &&& account.final_orchard_tree@ == state.final_orchard_tree@
                &&& account.final_ironwood_tree@ == state.final_ironwood_tree@
                &&& account.recover_until == birthday.recover_until
            }
        }),
{
}

/// A block is read under its height, with its hash, its time and what it says of each pool, as its
/// record holds them.
pub proof fn lemma_block_record(
    record: proto::WalletBlock,
    r: Result<(BlockHeight, MemoryWalletBlock), Error>,
)
    requires
        call_ensures(proto::WalletBlock::read_record, (&record,), r),
        r is Ok,
    ensures
        ({
            let (key, block) = r->Ok_0;
            &&& key == record.height
            &&& block.height == record.height
            &&& block.hash@ == record.hash@
            &&& block.block_time == record.block_time
            &&& block.sapling_commitment_tree_size == record.sapling_commitment_tree_size
            &&& block.sapling_output_count == record.sapling_output_count
            &&& block.orchard_commitment_tree_size == record.orchard_commitment_tree_size
            &&& block.orchard_action_count == record.orchard_action_count
            &&& block.ironwood_commitment_tree_size == record.ironwood_commitment_tree_size
            &&& block.ironwood_action_count == record.ironwood_action_count
        }),
{
}

/// A block that names transactions holds those, and no others.
pub proof fn lemma_block_transactions(
    record: proto::WalletBlock,
    ids: Seq<TxId>,
    r: Result<(BlockHeight, MemoryWalletBlock), Error>,
)
    requires
        call_ensures(proto::WalletBlock::read_record, (&record,), r),
        r is Ok,
        ids.len() == record.transactions@.len(),
        forall|i: int|
            0 <= i < ids.len() ==> (#[trigger] ids[i]).bytes@ == record.transactions@[i].hash@,
    ensures
        forall|txid: TxId| #[trigger]
            (r->Ok_0).1.transactions.map().dom().contains(txid) <==> ids.contains(txid),
{
    let entries = held(record.transactions@);
    assert forall|i: int| 0 <= i < ids.len() implies (#[trigger] entries[i]).0 == ids[i] by {
        lemma_array_of(ids[i].bytes);
    }
    lemma_map_of_keys(entries);
    assert forall|txid: TxId| #[trigger]
        (r->Ok_0).1.transactions.map().dom().contains(txid) <==> ids.contains(txid) by {
        if map_of(entries).dom().contains(txid) {
            let i = choose|i: int| 0 <= i < entries.len() && (#[trigger] entries[i]).0 == txid;
            assert(ids[i] == txid);
        }
        if ids.contains(txid) {
            let i = choose|i: int| 0 <= i < ids.len() && ids[i] == txid;
            assert(entries[i].0 == txid);
        }
    }
}

/// The keys of the map of some entries are the keys of the entries.
proof fn lemma_map_of_keys<K, V>(entries: Seq<(K, V)>)
    ensures
        forall|k: K| #[trigger]
            map_of(entries).dom().contains(k) <==> exists|i: int|
                0 <= i < entries.len() && (#[trigger] entries[i]).0 == k,
    decreases entries.len(),
{
    if entries.len() > 0 {
        let first = entries.drop_last();
        lemma_map_of_keys(first);
        assert forall|k: K| #[trigger] map_of(entries).dom().contains(k) <==> exists|i: int|
            0 <= i < entries.len() && (#[trigger] entries[i]).0 == k by {
            if map_of(first).dom().contains(k) {
                let i = choose|i: int| 0 <= i < first.len() && (#[trigger] first[i]).0 == k;
                assert(entries[i].0 == k);
            }
            if entries.last().0 == k {
                assert(entries[entries.len() - 1].0 == k);
            }
            if exists|i: int| 0 <= i < entries.len() && (#[trigger] entries[i]).0 == k {
                let i = choose|i: int| 0 <= i < entries.len() && (#[trigger] entries[i]).0 == k;
                if i < first.len() {
                    assert(first[i].0 == k);
                }
            }
        }
    }
}

/// Of the entries with a key, the last one counts.
pub proof fn lemma_last_entry_counts<K, V>(entries: Seq<(K, V)>, i: int)
    requires
        0 <= i < entries.len(),
        forall|j: int| i < j < entries.len() ==> (#[trigger] entries[j]).0 != entries[i].0,
    ensures
        map_of(entries).dom().contains(entries[i].0),
        map_of(entries)[entries[i].0] == entries[i].1,
    decreases entries.len(),
{
    if i < entries.len() - 1 {
        let first = entries.drop_last();
        assert(entries[entries.len() - 1].0 != entries[i].0);
        assert forall|j: int| i < j < first.len() implies (#[trigger] first[j]).0 != first[i].0 by {
            assert(first[j] == entries[j]);
        }
        lemma_last_entry_counts(first, i);
    }
}

/// Records are refused just if one of them is, and for what is wrong with the first such one.
pub proof fn lemma_first_refusal<R: Record>(records: Seq<R>)
    ensures
        match first_error(records) {
            None => forall|i: int|
                0 <= i < records.len() ==> (#[trigger] records[i]).read_error() is None,
            Some(e) => exists|i: int|
                {
                    &&& 0 <= i < records.len()
                    &&& (#[trigger] records[i]).read_error() == Some(e)
                    &&& forall|j: int| 0 <= j < i ==> (#[trigger] records[j]).read_error() is None
                },
        },
    decreases records.len(),
{
    if records.len() > 0 {
        let first = records.drop_last();
        lemma_first_refusal(first);
        match first_error(first) {
            None => {
                assert forall|i: int| 0 <= i < first.len() implies (
                #[trigger] records[i]).read_error() is None by {
                    assert(first[i] == records[i]);
                }
                assert(records[records.len() - 1] == records.last());
            },
            Some(e) => {
                let i = choose|i: int|
                    {
                        &&& 0 <= i < first.len()
                        &&& (#[trigger] first[i]).read_error() == Some(e)
                        &&& forall|j: int| 0 <= j < i ==> (#[trigger] first[j]).read_error() is None
                    };
                assert(records[i] == first[i]);
                assert forall|j: int| 0 <= j < i implies (
                #[trigger] records[j]).read_error() is None by {
                    assert(first[j] == records[j]);
                }
            },
        }
    }
}

/// A note that was received is read with the note and its identifier, its transaction and output, its
/// account, its nullifier, whether it is change, its memo, its position and the scope of its key, as
/// its record holds them.
pub proof fn lemma_received_note_record(
    record: proto::ReceivedNote,
    id: NoteId,
    txid: TxId,
    note: Note,
    nf: Option<Nullifier>,
    r: Result<ReceivedNote, Error>,
)
    requires
        call_ensures(proto::ReceivedNote::read_record, (&record,), r),
        names_note(record.note_id, id),
        names_tx(record.tx_id, txid),
        holds_note(record.note, note),
        note_valid(note),
        match (record.nullifier, nf) {
            (Some(a), Some(b)) => holds_nullifier(a, b) && nullifier_valid(b),
            (None, None) => true,
            _ => false,
        },
        record.memo@.len() <= 512,
    ensures
        r matches Ok(received) && {
            &&& received.note_id == id
            &&& received.txid == txid
            &&& received.output_index == record.output_index
            &&& received.account_id == record.account_id
            &&& received.note == note
            &&& received.nf == nf
            &&& received.is_change == record.is_change
            &&& received.memo.bytes@ == record.memo@
            &&& received.commitment_tree_position == record.commitment_tree_position
            &&& record.recipient_key_scope is None ==> received.recipient_key_scope is None
            &&& record.recipient_key_scope == Some(1i32) ==> received.recipient_key_scope == Some(
                Scope::External,
            )
            &&& record.recipient_key_scope == Some(0i32) ==> received.recipient_key_scope == Some(
                Scope::Internal,
            )
        },
{
    lemma_note_named(record.note_id, id);
    lemma_tx_named(record.tx_id, txid);
    lemma_note_held(record.note, note);
    if let Some(b) = nf {
        lemma_nullifier_held(record.nullifier->0, b);
    }
}

/// The spend of a received note is read with the note and the transaction that its record names.
pub proof fn lemma_note_spend_record(
    record: proto::ReceivedNoteSpendRecord,
    id: NoteId,
    txid: TxId,
    r: Result<(NoteId, TxId), Error>,
)
    requires
        call_ensures(proto::ReceivedNoteSpendRecord::read_record, (&record,), r),
        names_note(record.note_id, id),
        names_tx(record.tx_id, txid),
    ensures
        r == Ok::<(NoteId, TxId), Error>((id, txid)),
{
    lemma_note_named(record.note_id, id);
    lemma_tx_named(record.tx_id, txid);
}

/// A nullifier is read with the place in the chain where it was revealed.
pub proof fn lemma_nullifier_record(
    record: proto::NullifierRecord,
    nf: Nullifier,
    r: Result<(Nullifier, TxLocator), Error>,
)
    requires
        call_ensures(proto::NullifierRecord::read_record, (&record,), r),
        record.nullifier matches Some(held) && holds_nullifier(held, nf),
        nullifier_valid(nf),
    ensures
        r == Ok::<(Nullifier, TxLocator), Error>(
            (nf, TxLocator { height: record.block_height, index: record.tx_index }),
        ),
{
    lemma_nullifier_held(record.nullifier->0, nf);
}

/// A place in the chain is read with the transaction that is there.
pub proof fn lemma_locator_record(
    record: proto::TxLocatorRecord,
    txid: TxId,
    r: Result<(TxLocator, TxId), Error>,
)
    requires
        call_ensures(proto::TxLocatorRecord::read_record, (&record,), r),
        names_tx(record.tx_id, txid),
    ensures
        r == Ok::<(TxLocator, TxId), Error>(
            (TxLocator { height: record.block_height, index: record.tx_index }, txid),
        ),
{
    lemma_tx_named(record.tx_id, txid);
}

/// A note that was sent is read with the account that sent it, its value and its memo. One to an
/// address has that address, one to an account of the wallet has the account and the note.
pub proof fn lemma_sent_note_record(
    record: proto::SentNoteRecord,
    id: NoteId,
    note: Note,
    outpoint: OutPoint,
    r: Result<(NoteId, SentNote), Error>,
)
    requires
        call_ensures(proto::SentNoteRecord::read_record, (&record,), r),
        names_note(record.sent_note_id, id),
        r is Ok,
        record.sent_note is Some ==> (record.sent_note->0.to matches Some(to) ==> {
            &&& to.recipient_type == 1 ==> names_output(to.outpoint, outpoint)
            &&& to.recipient_type == 2 ==> holds_note(to.note, note) && note_valid(note)
        }),
    ensures
        record.sent_note matches Some(sent) && (sent.to matches Some(to) && {
            let (key, read) = r->Ok_0;
            &&& key == id
            &&& read.from_account_id == sent.from_account_id
            &&& read.value == sent.value
            &&& read.value <= MAX_MONEY
            &&& read.memo.bytes@ == sent.memo@
            &&& to.recipient_type == 0 ==> (read.to matches Recipient::External { address, pool }
                && (to.address matches Some(a) && a@ == address@) && to.pool_type == Some(pool))
            &&& to.recipient_type == 1 ==> (read.to matches Recipient::EphemeralTransparent {
                receiving_account,
                ephemeral_address,
                outpoint: o,
            } && to.account_id == Some(receiving_account) && (to.address matches Some(a) && a@
                == ephemeral_address@) && o == outpoint)
            &&& to.recipient_type == 2 ==> (read.to matches Recipient::InternalAccount {
                receiving_account,
                external_address,
                note: n,
            } && to.account_id == Some(receiving_account) && n == note && match (
                to.address,
                external_address,
            ) {
                (Some(a), Some(b)) => a@ == b@,
                (None, None) => true,
                _ => false,
            })
        }),
{
    lemma_note_named(record.sent_note_id, id);
    if let Some(sent) = record.sent_note {
        if let Some(to) = sent.to {
            if to.recipient_type == 1 {
                lemma_output_named(to.outpoint, outpoint);
            }
            if to.recipient_type == 2 {
                lemma_note_held(to.note, note);
            }
        }
    }
}

/// A transparent output that was received is read with its transaction, its account, its address, its
/// value, its script and the height up to which it was seen unspent.
pub proof fn lemma_transparent_output_record(
    record: proto::TransparentReceivedOutputRecord,
    outpoint: OutPoint,
    txid: TxId,
    r: Result<(OutPoint, ReceivedTransparentOutput), Error>,
)
    requires
        call_ensures(proto::TransparentReceivedOutputRecord::read_record, (&record,), r),
        names_output(record.outpoint, outpoint),
        record.output matches Some(output) && output.transaction_id@ == txid.bytes@ && output.value
            <= MAX_MONEY,
    ensures
        r matches Ok((key, read)) && {
            let output = record.output->0;
            &&& key == outpoint
            &&& read.transaction_id == txid
            &&& read.account_id == output.account_id
            &&& read.address@ == output.address@
            &&& read.value == output.value
            &&& read.script@ == output.script@
            &&& read.max_observed_unspent_height == output.max_observed_unspent_height
        },
{
    lemma_output_named(record.outpoint, outpoint);
    lemma_array_of(txid.bytes);
}

/// The spend of a transparent output is read with the output and the transaction.
pub proof fn lemma_transparent_spend_records(
    spend: proto::TransparentReceivedOutputSpendRecord,
    cached: proto::TransparentSpendCacheRecord,
    outpoint: OutPoint,
    txid: TxId,
    r: Result<(OutPoint, TxId), Error>,
    q: Result<(OutputSpend, ()), Error>,
)
    requires
        call_ensures(proto::TransparentReceivedOutputSpendRecord::read_record, (&spend,), r),
        call_ensures(proto::TransparentSpendCacheRecord::read_record, (&cached,), q),
        names_output(spend.outpoint, outpoint),
        names_tx(spend.tx_id, txid),
        names_output(cached.outpoint, outpoint),
        names_tx(cached.tx_id, txid),
    ensures
        r == Ok::<(OutPoint, TxId), Error>((outpoint, txid)),
        q is Ok,
        (q->Ok_0).0 == (OutputSpend { txid, outpoint }),
{
    lemma_output_named(spend.outpoint, outpoint);
    lemma_tx_named(spend.tx_id, txid);
    lemma_output_named(cached.outpoint, outpoint);
    lemma_tx_named(cached.tx_id, txid);
}

/// The end of a subtree is read with its place in the tree and its height.
pub proof fn lemma_end_height_record(
    record: proto::TreeEndHeightsRecord,
    r: Result<(Address, BlockHeight), Error>,
)
    requires
        call_ensures(proto::TreeEndHeightsRecord::read_record, (&record,), r),
    ensures
        match r {
            Ok((address, height)) => {
                &&& address.level == record.level
                &&& address.index == record.index
                &&& height == record.block_height
            },
            Err(e) => e is IntegerConversion && record.level > 255,
        },
{
}

/// A range of the scan queue is read with its bounds, and with its priority by its number.
pub proof fn lemma_scan_range_record(record: proto::ScanQueueRecord, r: Result<ScanRange, Error>)
    requires
        call_ensures(proto::ScanQueueRecord::read_record, (&record,), r),
    ensures
        r matches Ok(range) && {
            &&& range.start == record.start_height
            &&& range.end == record.end_height
            &&& record.priority == 0 ==> range.priority is Ignored
            &&& record.priority == 1 ==> range.priority is Scanned
            &&& record.priority == 2 ==> range.priority is Historic
            &&& record.priority == 3 ==> range.priority is OpenAdjacent
            &&& record.priority == 4 ==> range.priority is FoundNote
            &&& record.priority == 5 ==> range.priority is ChainTip
            &&& record.priority == 6 ==> range.priority is Verify
        },
{
}

/// A request is read by its number: for the status of a transaction, for the whole of it, or for the
/// transactions that involve an address between two heights.
pub proof fn lemma_request_record(
    record: proto::TransactionDataRequest,
    txid: TxId,
    r: Result<TransactionDataRequest, Error>,
)
    requires
        call_ensures(proto::TransactionDataRequest::read_record, (&record,), r),
        record.request_type == 0 || record.request_type == 1 ==> names_tx(record.tx_id, txid),
        r is Ok,
    ensures
        record.request_type == 0 ==> r->Ok_0 == TransactionDataRequest::GetStatus(txid),
        record.request_type == 1 ==> r->Ok_0 == TransactionDataRequest::Enhancement(txid),
        record.request_type == 2 ==> (r->Ok_0
            matches TransactionDataRequest::TransactionsInvolvingAddress { address, start, end } && (
        record.address matches Some(a) && a@ == address@) && record.block_range_start == Some(start)
            && record.block_range_end == end),
        0 <= record.request_type <= 2,
{
    if record.request_type == 0 || record.request_type == 1 {
        lemma_tx_named(record.tx_id, txid);
    }
}

/// Whether a tree is the one that a record holds: the part above the shards, the shards under their
/// places, and the checkpoints.
pub open spec fn holds_tree(record: proto::ShardTree, tree: CommitmentTree) -> bool {
    &&& tree.cap@ == record.cap@
    &&& tree.checkpoints@ == record.checkpoints@
    &&& tree.shards@.len() == record.shards@.len()
    &&& forall|i: int|
        0 <= i < tree.shards@.len() ==> (#[trigger] tree.shards@[i]).index
            == record.shards@[i].shard_index && tree.shards@[i].data@ == record.shards@[i].shard_data@
}

/// A tree consists of what its record holds.
proof fn lemma_holds_tree(record: proto::ShardTree, tree: CommitmentTree)
    requires
        tree@ == record.tree(),
    ensures
        holds_tree(record, tree),
{
    assert(tree@.shards.len() == record.tree().shards.len());
    assert forall|i: int| 0 <= i < tree.shards@.len() implies (#[trigger] tree.shards@[i]).index
        == record.shards@[i].shard_index && tree.shards@[i].data@
        == record.shards@[i].shard_data@ by {
        assert(tree@.shards[i] == record.tree().shards[i]);
    }
}

/// Whether a wallet holds what records hold, table by table.
pub open spec fn wallet_held<P>(record: proto::MemoryWallet, wallet: MemoryWalletDb<P>) -> bool {
    &&& record.accounts matches Some(accounts) && {
        &&& wallet.accounts.map() == map_of(held(accounts.accounts@))
        &&& wallet.account_nonce == accounts.account_nonce
    }
    &&& wallet.blocks.map() == map_of(held(record.blocks@))
    &&& wallet.tx_table.map() == map_of(held(record.tx_table@))
    &&& item_views(wallet.received_notes@) == items(record.received_note_table@)
    &&& wallet.received_note_spends.map() == map_of(held(record.received_note_spends@))
    &&& wallet.nullifiers.map() == map_of(held(record.nullifiers@))
    &&& wallet.sent_notes.map() == map_of(held(record.sent_notes@))
    &&& wallet.tx_locator.map() == map_of(held(record.tx_locator@))
    &&& item_views(wallet.scan_queue@) == items(record.scan_queue@)
    &&& record.sapling_tree matches Some(tree) && holds_tree(tree, wallet.sapling_tree)
    &&& wallet.sapling_tree_shard_end_heights.map() == map_of(
        held(record.sapling_tree_shard_end_heights@),
    )
    &&& record.orchard_tree matches Some(tree) && holds_tree(tree, wallet.orchard_tree)
    &&& wallet.orchard_tree_shard_end_heights.map() == map_of(
        held(record.orchard_tree_shard_end_heights@),
    )
    &&& match record.ironwood_tree {
        Some(tree) => holds_tree(tree, wallet.ironwood_tree),
        None => wallet.ironwood_tree.shards@.len() == 0
            && wallet.ironwood_tree.checkpoints@.len() == 0,
    }
    &&& wallet.ironwood_tree_shard_end_heights.map() == map_of(
        held(record.ironwood_tree_shard_end_heights@),
    )
    &&& wallet.transparent_received_outputs.map() == map_of(
        held(record.transparent_received_outputs@),
    )
    &&& wallet.transparent_received_output_spends.map() == map_of(
        held(record.transparent_received_output_spends@),
    )
    &&& wallet.transparent_spend_map.map() == map_of(held(record.transparent_spend_map@))
    &&& item_views(wallet.transaction_data_request_queue@) == items(
        record.transaction_data_requests@,
    )
}

/// A wallet that is read holds what its records hold, table by table, and what it was told of the
/// network. A tree keeps a hundred checkpoints, and an Ironwood tree that is missing as many as was
/// asked for.
pub proof fn lemma_wallet_is_read<P>(
    record: proto::MemoryWallet,
    params: P,
    max_checkpoints: usize,
    r: Result<MemoryWalletDb<P>, Error>,
)
    requires
        call_ensures(MemoryWalletDb::<P>::new_from_proto, (record, params, max_checkpoints), r),
    ensures
        record.version == 2 && r is Ok ==> {
            &&& wallet_held(record, r->Ok_0)
            &&& r->Ok_0.params == params
            &&& r->Ok_0.sapling_tree.max_checkpoints == 100
            &&& r->Ok_0.orchard_tree.max_checkpoints == 100
            &&& r->Ok_0.ironwood_tree.max_checkpoints == (if record.ironwood_tree is Some {
                100
            } else {
                max_checkpoints
            })
        },
        record.version != 1 && record.version != 2 ==> r == Err::<MemoryWalletDb<P>, Error>(
            Error::UnsupportedProtoVersion(2, record.version),
        ),
        record.version == 2 && record.accounts is None ==> r == Err::<MemoryWalletDb<P>, Error>(
            Error::ProtoMissingField("accounts"),
        ),
        record.version == 2 && (record.sapling_tree is None || record.orchard_tree is None) ==> r
            is Err,
{
    if record.version == 2 && r is Ok {
        let wallet = r->Ok_0;
        assert(wallet.contents() == record.contents());
        lemma_holds_tree(record.sapling_tree->0, wallet.sapling_tree);
        lemma_holds_tree(record.orchard_tree->0, wallet.orchard_tree);
        if record.ironwood_tree is Some {
            lemma_holds_tree(record.ironwood_tree->0, wallet.ironwood_tree);
        } else {
            assert(wallet.ironwood_tree@ == TreeView::empty());
            assert(wallet.ironwood_tree@.shards.len() == 0);
        }
    }
}

/// A wallet that is written and read again holds what it held, table by table.
pub proof fn lemma_wallet_is_kept<P>(
    wallet: MemoryWalletDb<P>,
    record: proto::MemoryWallet,
    params: P,
    max_checkpoints: usize,
    r: Result<MemoryWalletDb<P>, Error>,
)
    requires
        wallet.contents().valid(),
        call_ensures(proto::MemoryWallet::from::<P>, (&wallet,), record),
        call_ensures(MemoryWalletDb::<P>::new_from_proto, (record, params, max_checkpoints), r),
    ensures
        record.version == 2,
        r matches Ok(read) && {
            &&& read.accounts.map() == wallet.accounts.map()
            &&& read.account_nonce == wallet.account_nonce
            &&& read.blocks.map() == wallet.blocks.map()
            &&& read.tx_table.map() == wallet.tx_table.map()
            &&& item_views(read.received_notes@) == item_views(wallet.received_notes@)
            &&& read.received_note_spends.map() == wallet.received_note_spends.map()
            &&& read.nullifiers.map() == wallet.nullifiers.map()
            &&& read.sent_notes.map() == wallet.sent_notes.map()
            &&& read.tx_locator.map() == wallet.tx_locator.map()
            &&& read.scan_queue@ == wallet.scan_queue@
            &&& read.sapling_tree@ == wallet.sapling_tree@
            &&& read.sapling_tree_shard_end_heights.map()
                == wallet.sapling_tree_shard_end_heights.map()
            &&& read.orchard_tree@ == wallet.orchard_tree@
            &&& read.orchard_tree_shard_end_heights.map()
                == wallet.orchard_tree_shard_end_heights.map()
            &&& read.ironwood_tree@ == wallet.ironwood_tree@
            &&& read.ironwood_tree_shard_end_heights.map()
                == wallet.ironwood_tree_shard_end_heights.map()
            &&& read.transparent_received_outputs.map()
                == wallet.transparent_received_outputs.map()
            &&& read.transparent_received_output_spends.map()
                == wallet.transparent_received_output_spends.map()
            &&& read.transparent_spend_map.map() == wallet.transparent_spend_map.map()
            &&& item_views(read.transaction_data_request_queue@) == item_views(
                wallet.transaction_data_request_queue@,
            )
        },
{
    let read = r->Ok_0;
    assert(read.contents() == wallet.contents());
    assert(read.scan_queue@ =~= item_views(read.scan_queue@));
    assert(wallet.scan_queue@ =~= item_views(wallet.scan_queue@));
}

/// Whether nothing is said of the Ironwood pool in a wallet: no block and no account says anything of
/// its tree, the tree is empty, and no note is of the version that belongs to the pool.
pub open spec fn knows_no_ironwood<P>(wallet: MemoryWalletDb<P>) -> bool {
    &&& forall|h: BlockHeight| #[trigger]
        wallet.blocks.map().dom().contains(h) ==> {
            &&& wallet.blocks.map()[h].ironwood_commitment_tree_size is None
            &&& wallet.blocks.map()[h].ironwood_action_count is None
        }
    &&& forall|a: AccountId| #[trigger]
        wallet.accounts.map().dom().contains(a)
            ==> wallet.accounts.map()[a].final_ironwood_tree.len() == 0
    &&& wallet.ironwood_tree.shards@.len() == 0
    &&& wallet.ironwood_tree.checkpoints@.len() == 0
    &&& forall|i: int|
        0 <= i < wallet.received_notes@.len() ==> ((
        #[trigger] wallet.received_notes@[i]).note matches Note::Orchard(note) ==> note.version
            == NoteVersion::V2)
    &&& forall|id: NoteId| #[trigger]
        wallet.sent_notes.map().dom().contains(id) ==> sent_before_ironwood(
            wallet.sent_notes.map()[id],
        )
}

/// Whether a sent note is not of the version that belongs to the Ironwood pool.
pub open spec fn sent_before_ironwood(sent: SentNoteView) -> bool {
    sent.to matches RecipientView::InternalAccount { note, .. } ==> (note matches Note::Orchard(n)
        ==> n.version == NoteVersion::V2)
}

/// Whether two notes that were received differ at most in the version of the note.
pub open spec fn received_alike(a: ReceivedNoteView, b: ReceivedNoteView) -> bool {
    &&& a.note_id == b.note_id
    &&& a.txid == b.txid
    &&& a.output_index == b.output_index
    &&& a.account_id == b.account_id
    &&& a.nf == b.nf
    &&& a.is_change == b.is_change
    &&& a.memo == b.memo
    &&& a.commitment_tree_position == b.commitment_tree_position
    &&& a.recipient_key_scope == b.recipient_key_scope
    &&& match (a.note, b.note) {
        (Note::Sapling(m), Note::Sapling(n)) => m == n,
        (Note::Orchard(m), Note::Orchard(n)) => m.recipient == n.recipient && m.value == n.value
            && m.rho == n.rho && m.rseed == n.rseed,
        _ => false,
    }
}

/// A wallet that is read from records of the first version knows nothing of the Ironwood pool,
/// whatever the records say; its transactions, nullifiers and other tables are those that the records
/// hold.
pub proof fn lemma_legacy_wallet<P>(
    record: proto::MemoryWallet,
    params: P,
    max_checkpoints: usize,
    r: Result<MemoryWalletDb<P>, Error>,
)
    requires
        record.version == 1,
        call_ensures(MemoryWalletDb::<P>::new_from_proto, (record, params, max_checkpoints), r),
        r is Ok,
    ensures
        knows_no_ironwood(r->Ok_0),
        r->Ok_0.params == params,
        r->Ok_0.tx_table.map() == map_of(held(record.tx_table@)),
        r->Ok_0.received_note_spends.map() == map_of(held(record.received_note_spends@)),
        r->Ok_0.nullifiers.map() == map_of(held(record.nullifiers@)),
        r->Ok_0.tx_locator.map() == map_of(held(record.tx_locator@)),
        item_views(r->Ok_0.scan_queue@) == items(record.scan_queue@),
        record.sapling_tree matches Some(tree) && holds_tree(tree, r->Ok_0.sapling_tree),
        record.orchard_tree matches Some(tree) && holds_tree(tree, r->Ok_0.orchard_tree),
        r->Ok_0.received_notes@.len() == record.received_note_table@.len(),
        r->Ok_0.transparent_received_outputs.map() == map_of(
            held(record.transparent_received_outputs@),
        ),
        forall|h: BlockHeight| #[trigger]
            r->Ok_0.blocks.map().dom().contains(h) <==> exists|i: int|
                0 <= i < record.blocks@.len() && (#[trigger] record.blocks@[i]).height == h,
        forall|i: int|
            0 <= i < record.received_note_table@.len() ==> received_alike(
                (#[trigger] r->Ok_0.received_notes@[i])@,
                record.received_note_table@[i].item(),
            ),
{
    let q = choose|q: proto::MemoryWallet| #[trigger]
        is_legacy(record, q) && reads(r, q, params, max_checkpoints);
    let wallet = r->Ok_0;
    assert(wallet.contents() == q.contents());
    lemma_holds_tree(q.sapling_tree->0, wallet.sapling_tree);
    lemma_holds_tree(q.orchard_tree->0, wallet.orchard_tree);
    assert(wallet.ironwood_tree@ == TreeView::empty());
    assert(wallet.ironwood_tree@.shards.len() == 0);
    let blocks = held(q.blocks@);
    lemma_values_of(
        blocks,
        |b: BlockView| b.ironwood_commitment_tree_size is None && b.ironwood_action_count is None,
    );
    let accounts = held(q.accounts->0.accounts@);
    assert forall|i: int| 0 <= i < accounts.len() implies (
    #[trigger] accounts[i]).1.final_ironwood_tree.len() == 0 by {
        assert(is_legacy_account(record.accounts->0.accounts@[i], q.accounts->0.accounts@[i]));
        lemma_first_refusal(q.accounts->0.accounts@);
        assert(q.accounts->0.accounts@[i].read_error() is None);
    }
    lemma_values_of(accounts, |a: AccountView| a.final_ironwood_tree.len() == 0);
    assert forall|i: int| 0 <= i < wallet.received_notes@.len() implies ((
    #[trigger] wallet.received_notes@[i]).note matches Note::Orchard(note) ==> note.version
        == NoteVersion::V2) by {
        assert(item_views(wallet.received_notes@)[i] == items(q.received_note_table@)[i]);
        lemma_first_list_refusal(q.received_note_table@);
        assert(q.received_note_table@[i].read_error() is None);
        assert(q.received_note_table@[i] == legacy_received(record.received_note_table@[i]));
    }
    assert forall|i: int| 0 <= i < record.received_note_table@.len() implies received_alike(
        (#[trigger] wallet.received_notes@[i])@,
        record.received_note_table@[i].item(),
    ) by {
        assert(item_views(wallet.received_notes@)[i] == items(q.received_note_table@)[i]);
        lemma_first_list_refusal(q.received_note_table@);
        assert(q.received_note_table@[i].read_error() is None);
        assert(q.received_note_table@[i] == legacy_received(record.received_note_table@[i]));
    }
    let sent = held(q.sent_notes@);
    assert forall|i: int| 0 <= i < sent.len() implies sent_before_ironwood(
        (#[trigger] sent[i]).1,
    ) by {
        lemma_first_refusal(q.sent_notes@);
        assert(q.sent_notes@[i].read_error() is None);
        assert(q.sent_notes@[i] == legacy_sent(record.sent_notes@[i]));
    }
    lemma_values_of(sent, |v: SentNoteView| sent_before_ironwood(v));
    assert(item_views(wallet.received_notes@).len() == items(q.received_note_table@).len());
    lemma_map_of_keys(blocks);
    assert forall|h: BlockHeight| #[trigger] wallet.blocks.map().dom().contains(h) <==> exists|
        i: int,
    |
        0 <= i < record.blocks@.len() && (#[trigger] record.blocks@[i]).height == h by {
        if wallet.blocks.map().dom().contains(h) {
            let i = choose|i: int| 0 <= i < blocks.len() && (#[trigger] blocks[i]).0 == h;
            assert(q.blocks@[i] == legacy_block(record.blocks@[i]));
            assert(record.blocks@[i].height == h);
        }
        if exists|i: int|
            0 <= i < record.blocks@.len() && (#[trigger] record.blocks@[i]).height == h {
            let i = choose|i: int|
                0 <= i < record.blocks@.len() && (#[trigger] record.blocks@[i]).height == h;
            assert(q.blocks@[i] == legacy_block(record.blocks@[i]));
            assert(blocks[i].0 == h);
        }
    }
}

/// What holds of the value of every entry holds of every value of their map.
proof fn lemma_values_of<K, V>(entries: Seq<(K, V)>, p: spec_fn(V) -> bool)
    requires
        forall|i: int| 0 <= i < entries.len() ==> p((#[trigger] entries[i]).1),
    ensures
        forall|k: K| #[trigger] map_of(entries).dom().contains(k) ==> p(map_of(entries)[k]),
    decreases entries.len(),
{
    if entries.len() > 0 {
        let first = entries.drop_last();
        assert forall|i: int| 0 <= i < first.len() implies p((#[trigger] first[i]).1) by {
            assert(first[i] == entries[i]);
        }
        lemma_values_of(first, p);
        assert(p(entries[entries.len() - 1].1));
        assert forall|k: K| #[trigger] map_of(entries).dom().contains(k) implies p(
            map_of(entries)[k],
        ) by {
            if k != entries.last().0 {
                assert(map_of(first).dom().contains(k));
            }
        }
    }
}

/// Records of a list are refused just if one of them is.
proof fn lemma_first_list_refusal<R: ListRecord>(records: Seq<R>)
    ensures
        first_list_error(records) is None ==> forall|i: int|
            0 <= i < records.len() ==> (#[trigger] records[i]).read_error() is None,
    decreases records.len(),
{
    if records.len() > 0 {
        let first = records.drop_last();
        lemma_first_list_refusal(first);
        if first_list_error(records) is None {
            assert forall|i: int| 0 <= i < records.len() implies (
            #[trigger] records[i]).read_error() is None by {
                if i < first.len() {
                    assert(first[i] == records[i]);
                }
            }
        }
    }
}

/// What is read from records of the first version keeps what they say of each block and of each account
/// apart from the Ironwood pool, where no later record stands under the same height or number.
pub proof fn lemma_legacy_entries<P>(
    record: proto::MemoryWallet,
    params: P,
    max_checkpoints: usize,
    r: Result<MemoryWalletDb<P>, Error>,
    i: int,
    a: int,
)
    requires
        record.version == 1,
        call_ensures(MemoryWalletDb::<P>::new_from_proto, (record, params, max_checkpoints), r),
        r is Ok,
    ensures
        0 <= i < record.blocks@.len() && (forall|j: int|
            i < j < record.blocks@.len() ==> (#[trigger] record.blocks@[j]).height
                != record.blocks@[i].height) ==> {
            let block = r->Ok_0.blocks.map()[record.blocks@[i].height];
            let told = record.blocks@[i].value();
            &&& block.height == told.height
            &&& block.hash == told.hash
            &&& block.block_time == told.block_time
            &&& block.transactions == told.transactions
            &&& block.memos == told.memos
            &&& block.sapling_commitment_tree_size == told.sapling_commitment_tree_size
            &&& block.sapling_output_count == told.sapling_output_count
            &&& block.orchard_commitment_tree_size == told.orchard_commitment_tree_size
            &&& block.orchard_action_count == told.orchard_action_count
        },
        record.accounts matches Some(accounts) && (0 <= a < accounts.accounts@.len() && (forall|j: int|
            a < j < accounts.accounts@.len() ==> (#[trigger] accounts.accounts@[j]).account_id
                != accounts.accounts@[a].account_id) ==> {
            let account = r->Ok_0.accounts.map()[accounts.accounts@[a].account_id];
            let told = accounts.accounts@[a].value();
            &&& account.name == told.name
            &&& account.viewing_key == told.viewing_key
            &&& account.birthday_height == told.birthday_height
            &&& account.birthday_hash == told.birthday_hash
            &&& account.final_sapling_tree == told.final_sapling_tree
            &&& account.final_orchard_tree == told.final_orchard_tree
            &&& account.recover_until == told.recover_until
            &&& r->Ok_0.account_nonce == accounts.account_nonce
        }),
{
    let q = choose|q: proto::MemoryWallet| #[trigger]
        is_legacy(record, q) && reads(r, q, params, max_checkpoints);
    let wallet = r->Ok_0;
    assert(wallet.contents() == q.contents());
    let blocks = held(q.blocks@);
    assert forall|j: int| 0 <= j < record.blocks@.len() implies (#[trigger] blocks[j]).0
        == record.blocks@[j].height by {
        assert(q.blocks@[j] == legacy_block(record.blocks@[j]));
    }
    if 0 <= i < record.blocks@.len() && (forall|j: int|
        i < j < record.blocks@.len() ==> (#[trigger] record.blocks@[j]).height
            != record.blocks@[i].height) {
        assert forall|j: int| i < j < blocks.len() implies (#[trigger] blocks[j]).0
            != blocks[i].0 by {
            assert(record.blocks@[j].height != record.blocks@[i].height);
        }
        lemma_last_entry_counts(blocks, i);
        assert(q.blocks@[i] == legacy_block(record.blocks@[i]));
    }
    let x = record.accounts->0.accounts@;
    let y = q.accounts->0.accounts@;
    let accounts = held(y);
    assert forall|j: int| 0 <= j < x.len() implies (#[trigger] accounts[j]).0
        == x[j].account_id by {
        assert(is_legacy_account(x[j], y[j]));
    }
    if 0 <= a < x.len() && (forall|j: int|
        a < j < x.len() ==> (#[trigger] x[j]).account_id != x[a].account_id) {
        assert forall|j: int| a < j < accounts.len() implies (#[trigger] accounts[j]).0
            != accounts[a].0 by {
            assert(x[j].account_id != x[a].account_id);
        }
        lemma_last_entry_counts(accounts, a);
        assert(is_legacy_account(x[a], y[a]));
        lemma_first_refusal(y);
        assert(y[a].read_error() is None);
    }
}

/// A memo is read under the note that it came with, as its record holds it, unless it is too long.
pub proof fn lemma_memo_record(
    record: proto::MemoRecord,
    id: NoteId,
    r: Result<(NoteId, Memo), Error>,
)
    requires
        call_ensures(proto::MemoRecord::read_record, (&record,), r),
        names_note(record.note_id, id),
    ensures
        match r {
            Ok((key, memo)) => key == id && memo.bytes@ == record.memo@ && record.memo@.len() <= 512,
            Err(e) => e is InvalidMemo && record.memo@.len() > 512,
        },
{
    lemma_note_named(record.note_id, id);
}

/// A block that holds memos is read with each of them under the note that it came with, where no later
/// memo came with the same note.
pub proof fn lemma_block_memos(
    record: proto::WalletBlock,
    ids: Seq<NoteId>,
    i: int,
    r: Result<(BlockHeight, MemoryWalletBlock), Error>,
)
    requires
        call_ensures(proto::WalletBlock::read_record, (&record,), r),
        r is Ok,
        ids.len() == record.memos@.len(),
        forall|j: int|
            0 <= j < ids.len() ==> names_note((#[trigger] record.memos@[j]).note_id, ids[j]),
        0 <= i < ids.len(),
        forall|j: int| i < j < ids.len() ==> #[trigger] ids[j] != ids[i],
    ensures
        (r->Ok_0).1.memos.map().dom().contains(ids[i]),
        (r->Ok_0).1.memos.map()[ids[i]] == record.memos@[i].memo@,
{
    let entries = held(record.memos@);
    assert forall|j: int| 0 <= j < ids.len() implies (#[trigger] entries[j]).0 == ids[j] by {
        lemma_note_named(record.memos@[j].note_id, ids[j]);
    }
    assert forall|j: int| i < j < entries.len() implies (#[trigger] entries[j]).0
        != entries[i].0 by {
        assert(ids[j] != ids[i]);
    }
    lemma_last_entry_counts(entries, i);
}

/// Identifiers, nullifiers and notes that are not what they should be are refused for it: a hash that is
/// not 32 bytes long, a pool that holds no notes, an output whose number is too great, a nullifier of the
/// Orchard pool that is not canonical, a note without a seed, an Orchard note without `rho` or of an
/// unknown version.
pub proof fn lemma_refused_records(
    txid: proto::TxId,
    read_txid: Result<TxId, Error>,
    id: proto::NoteId,
    read_id: Result<NoteId, Error>,
    nf: proto::Nullifier,
    read_nf: Result<Nullifier, Error>,
    note: proto::Note,
    read_note: Result<Note, Error>,
)
    requires
        call_ensures(TxId::try_from, (&txid,), read_txid),
        call_ensures(proto::NoteId::read, (&id,), read_id),
        call_ensures(proto::Nullifier::read, (&nf,), read_nf),
        call_ensures(proto::Note::read, (&note,), read_note),
    ensures
        read_txid is Ok <==> txid.hash@.len() == 32,
        read_txid matches Err(e) ==> e is ByteVecToArrayConversion,
        read_id is Ok <==> {
            &&& id.tx_id is Some && id.tx_id->0.hash@.len() == 32
            &&& id.pool == 1 || id.pool == 2
            &&& id.output_index <= 65535
        },
        id.tx_id is Some && id.tx_id->0.hash@.len() == 32 && id.pool != 1 && id.pool != 2
            ==> read_id == Err::<NoteId, Error>(Error::InvalidPool),
        id.tx_id is Some && id.tx_id->0.hash@.len() == 32 && (id.pool == 1 || id.pool == 2)
            && id.output_index > 65535 ==> read_id == Err::<NoteId, Error>(Error::IntegerConversion),
        id.tx_id is None ==> read_id == Err::<NoteId, Error>(Error::ProtoMissingField("tx_id")),
        read_nf is Ok <==> nf.nullifier@.len() == 32 && (nf.protocol == 1 ==> pallas_base_canonical(
            nf.nullifier@,
        )),
        nf.nullifier@.len() == 32 && read_nf is Err ==> read_nf == Err::<Nullifier, Error>(
            Error::InvalidNullifier,
        ),
        read_note is Ok ==> note.recipient@.len() == 43 && note.rseed is Some
            && note.rseed->0.payload@.len() == 32,
        read_note is Ok && note.protocol == 1 ==> note.rho is Some && note.rho->0@.len() == 32 && (
        note.orchard_note_version is None || note.orchard_note_version == Some(2u32)
            || note.orchard_note_version == Some(3u32)),
        note.recipient@.len() == 43 && note.rseed is None ==> read_note == Err::<Note, Error>(
            Error::ProtoMissingField("rseed"),
        ),
{
}

/// Whether the part of a tree above the shards, and each shard, encodes a tree over a field.
pub open spec fn well_encoded(record: proto::ShardTree, protocol: ShieldedProtocol) -> bool {
    &&& tree_encoded(protocol, record.cap@)
    &&& forall|i: int|
        0 <= i < record.shards@.len() ==> tree_encoded(
            protocol,
            (#[trigger] record.shards@[i]).shard_data@,
        )
}

/// A wallet is read only if its trees are well encoded, that of the Ironwood pool like that of the
/// Orchard pool.
pub proof fn lemma_trees_are_checked<P>(
    record: proto::MemoryWallet,
    params: P,
    max_checkpoints: usize,
    r: Result<MemoryWalletDb<P>, Error>,
)
    requires
        record.version == 2,
        call_ensures(MemoryWalletDb::<P>::new_from_proto, (record, params, max_checkpoints), r),
    ensures
        r is Ok ==> {
            &&& record.sapling_tree matches Some(tree) && well_encoded(
                tree,
                ShieldedProtocol::Sapling,
            )
            &&& record.orchard_tree matches Some(tree) && well_encoded(
                tree,
                ShieldedProtocol::Orchard,
            )
            &&& record.ironwood_tree matches Some(tree) ==> well_encoded(
                tree,
                ShieldedProtocol::Orchard,
            )
        },
{
    if r is Ok {
        lemma_well_encoded(record.sapling_tree->0, ShieldedProtocol::Sapling);
        lemma_well_encoded(record.orchard_tree->0, ShieldedProtocol::Orchard);
        if record.ironwood_tree is Some {
            lemma_well_encoded(record.ironwood_tree->0, ShieldedProtocol::Orchard);
        }
    }
}

/// A tree is read just if it is well encoded.
pub proof fn lemma_tree_is_read(
    record: proto::ShardTree,
    protocol: ShieldedProtocol,
    max_checkpoints: usize,
    r: Result<CommitmentTree, Error>,
)
    requires
        call_ensures(tree_from_protobuf, (protocol, &record, max_checkpoints), r),
    ensures
        match r {
            Ok(tree) => well_encoded(record, protocol) && holds_tree(record, tree)
                && tree.max_checkpoints == max_checkpoints,
            Err(e) => e is InvalidTree && !well_encoded(record, protocol),
        },
{
    lemma_well_encoded(record, protocol);
    if let Ok(tree) = r {
        lemma_holds_tree(record, tree);
    }
}

/// The tree that a record holds is valid just if the record is well encoded.
proof fn lemma_well_encoded(record: proto::ShardTree, protocol: ShieldedProtocol)
    ensures
        record.tree().valid(protocol) <==> well_encoded(record, protocol),
{
    if record.tree().valid(protocol) {
        assert forall|i: int| 0 <= i < record.shards@.len() implies tree_encoded(
            protocol,
            (#[trigger] record.shards@[i]).shard_data@,
        ) by {
            assert(tree_encoded(protocol, record.tree().shards[i].data));
        }
    }
    if well_encoded(record, protocol) {
        assert forall|i: int| 0 <= i < record.tree().shards.len() implies tree_encoded(
            protocol,
            (#[trigger] record.tree().shards[i]).data,
        ) by {
            assert(tree_encoded(protocol, record.shards@[i].shard_data@));
        }
    }
}

} // verus!
