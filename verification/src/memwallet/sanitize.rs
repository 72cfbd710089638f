//! Records of the first version, which knew nothing of the Ironwood pool.

use vstd::prelude::*;

use super::proto;

verus! {

/// A note without its Orchard version.
pub open spec fn legacy_note(note: proto::Note) -> proto::Note {
    proto::Note { orchard_note_version: None, ..note }
}

/// A received note, its note without an Orchard version.
pub open spec fn legacy_received(record: proto::ReceivedNote) -> proto::ReceivedNote {
    proto::ReceivedNote {
        note: match record.note {
            Some(note) => Some(legacy_note(note)),
            None => None,
        },
        ..record
    }
}

/// A recipient, its note without an Orchard version.
pub open spec fn legacy_recipient(record: proto::Recipient) -> proto::Recipient {
    proto::Recipient {
        note: match record.note {
            Some(note) => Some(legacy_note(note)),
            None => None,
        },
        ..record
    }
}

/// A sent note, the note of its recipient without an Orchard version.
pub open spec fn legacy_sent(record: proto::SentNoteRecord) -> proto::SentNoteRecord {
    proto::SentNoteRecord {
        sent_note: match record.sent_note {
            Some(sent) => Some(
                proto::SentNote {
                    to: match sent.to {
                        Some(to) => Some(legacy_recipient(to)),
                        None => None,
                    },
                    ..sent
                },
            ),
            None => None,
        },
        ..record
    }
}

/// A block without what it says of the Ironwood pool.
pub open spec fn legacy_block(block: proto::WalletBlock) -> proto::WalletBlock {
    proto::WalletBlock {
        ironwood_commitment_tree_size: None,
        ironwood_action_count: None,
        ..block
    }
}

/// Whether `b` is the chain state `a` without what it says of the Ironwood pool.
pub open spec fn is_legacy_state(a: proto::ChainState, b: proto::ChainState) -> bool {
    &&& b.final_ironwood_tree@ == Seq::<u8>::empty()
    &&& b.block_height == a.block_height
    &&& b.block_hash == a.block_hash
    &&& b.final_sapling_tree == a.final_sapling_tree
    &&& b.final_orchard_tree == a.final_orchard_tree
}

/// Whether `b` is the account `a` without what it says of the Ironwood pool.
pub open spec fn is_legacy_account(a: proto::Account, b: proto::Account) -> bool {
    &&& b.account_id == a.account_id
    &&& b.account_name == a.account_name
    &&& b.viewing_key == a.viewing_key
    &&& match (a.birthday, b.birthday) {
        (None, None) => true,
        (Some(x), Some(y)) => x.recover_until == y.recover_until && match (
            x.prior_chain_state,
            y.prior_chain_state,
        ) {
            (None, None) => true,
            (Some(s), Some(t)) => is_legacy_state(s, t),
            _ => false,
        },
        _ => false,
    }
}

/// Whether `b` are the accounts `a` without what they say of the Ironwood pool.
pub open spec fn are_legacy_accounts(a: Option<proto::Accounts>, b: Option<proto::Accounts>) -> bool {
    match (a, b) {
        (None, None) => true,
        (Some(x), Some(y)) => {
            &&& x.account_nonce == y.account_nonce
            &&& x.accounts@.len() == y.accounts@.len()
            &&& forall|i: int|
                0 <= i < x.accounts@.len() ==> is_legacy_account(
                    x.accounts@[i],
                    #[trigger] y.accounts@[i],
                )
        },
        _ => false,
    }
}

/// Whether `b` is the wallet `a` without what it says of the Ironwood pool: neither the accounts
/// nor the blocks nor the wallet itself say anything of the Ironwood tree, and no note has a
/// version. Nothing else differs.
pub open spec fn is_legacy(a: proto::MemoryWallet, b: proto::MemoryWallet) -> bool {
    &&& b.version == a.version
    &&& are_legacy_accounts(a.accounts, b.accounts)
    &&& b.blocks@ == a.blocks@.map_values(|r: proto::WalletBlock| legacy_block(r))
    &&& b.tx_table == a.tx_table
    &&& b.received_note_table@ == a.received_note_table@.map_values(
        |r: proto::ReceivedNote| legacy_received(r),
    )
    &&& b.received_note_spends == a.received_note_spends
    &&& b.nullifiers == a.nullifiers
    &&& b.sent_notes@ == a.sent_notes@.map_values(|r: proto::SentNoteRecord| legacy_sent(r))
    &&& b.tx_locator == a.tx_locator
    &&& b.scan_queue == a.scan_queue
    &&& b.sapling_tree == a.sapling_tree
    &&& b.sapling_tree_shard_end_heights == a.sapling_tree_shard_end_heights
    &&& b.orchard_tree == a.orchard_tree
    &&& b.orchard_tree_shard_end_heights == a.orchard_tree_shard_end_heights
    &&& b.ironwood_tree is None
    &&& b.ironwood_tree_shard_end_heights@ == Seq::<proto::TreeEndHeightsRecord>::empty()
    &&& b.transparent_received_outputs == a.transparent_received_outputs
    &&& b.transparent_received_output_spends == a.transparent_received_output_spends
    &&& b.transparent_spend_map == a.transparent_spend_map
    &&& b.transaction_data_requests == a.transaction_data_requests
}

/// Takes the Orchard version from a note.
fn sanitize_note_v1(note: &mut proto::Note)
    ensures
        *final(note) == legacy_note(*old(note)),
{
    note.orchard_note_version = None;
}

/// Takes the Orchard version from a note that may be missing.
fn sanitize_optional_note(note: &mut Option<proto::Note>)
    ensures
        *final(note) == (match *old(note) {
            Some(note) => Some(legacy_note(note)),
            None => None,
        }),
{
    match note {
        Some(note) => {
            sanitize_note_v1(note);
        },
        None => {},
    }
}

/// Takes the Orchard version from the note of a recipient that may be missing.
fn sanitize_optional_recipient(to: &mut Option<proto::Recipient>)
    ensures
        *final(to) == (match *old(to) {
            Some(to) => Some(legacy_recipient(to)),
            None => None,
        }),
{
    match to {
        Some(to) => {
            sanitize_optional_note(&mut to.note);
        },
        None => {},
    }
}

/// Takes the Orchard version from the note of a sent note.
fn sanitize_sent(record: &mut proto::SentNoteRecord)
    ensures
        *final(record) == legacy_sent(*old(record)),
{
    match &mut record.sent_note {
        Some(sent) => {
            sanitize_optional_recipient(&mut sent.to);
        },
        None => {},
    }
}

/// Takes the Ironwood tree from the chain state of an account.
fn sanitize_account(account: &mut proto::Account)
    ensures
        is_legacy_account(*old(account), *final(account)),
{
    match &mut account.birthday {
        Some(birthday) => match &mut birthday.prior_chain_state {
            Some(state) => {
                state.final_ironwood_tree = Vec::new();
            },
            None => {},
        },
        None => {},
    }
}

/// Takes away all that accounts say of the Ironwood pool.
fn sanitize_accounts(accounts: &mut Option<proto::Accounts>)
    ensures
        are_legacy_accounts(*old(accounts), *final(accounts)),
{
    let mut taken: Option<proto::Accounts> = None;
    std::mem::swap(&mut taken, accounts);
    if let Some(mut all) = taken {
        let ghost before = all.accounts@;
        let mut i: usize = 0;
        while i < all.accounts.len()
            invariant
                i <= all.accounts@.len(),
                all.accounts@.len() == before.len(),
                Some(all.account_nonce) == (match *old(accounts) {
                    Some(a) => Some(a.account_nonce),
                    None => None,
                }),
                forall|k: int|
                    0 <= k < i ==> is_legacy_account(before[k], #[trigger] all.accounts@[k]),
                forall|k: int| i <= k < before.len() ==> #[trigger] all.accounts@[k] == before[k],
            decreases all.accounts@.len() - i,
        {
            sanitize_account(&mut all.accounts[i]);
            i = i + 1;
        }
        *accounts = Some(all);
    }
}

/// Takes away all that a wallet of the first version says of the Ironwood pool, which it cannot
/// have known.
pub fn sanitize_proto_wallet_v1(wallet: &mut proto::MemoryWallet)
    ensures
        is_legacy(*old(wallet), *final(wallet)),
{
    let ghost received = wallet.received_note_table@;
    let mut i: usize = 0;
    while i < wallet.received_note_table.len()
        invariant
            i <= wallet.received_note_table@.len(),
            wallet.received_note_table@.len() == received.len(),
            forall|k: int|
                0 <= k < i ==> #[trigger] wallet.received_note_table@[k] == legacy_received(
                    received[k],
                ),
            forall|k: int|
                i <= k < received.len() ==> #[trigger] wallet.received_note_table@[k]
                    == received[k],
            received == old(wallet).received_note_table@,
            (proto::MemoryWallet {
                received_note_table: old(wallet).received_note_table,
                ..*wallet
            }) == *old(wallet),
        decreases wallet.received_note_table@.len() - i,
    {
        sanitize_optional_note(&mut wallet.received_note_table[i].note);
        i = i + 1;
    }
    assert(wallet.received_note_table@ =~= received.map_values(
        |r: proto::ReceivedNote| legacy_received(r),
    ));
    let ghost after_received = *wallet;
    let ghost sent = wallet.sent_notes@;
    let mut i: usize = 0;
    while i < wallet.sent_notes.len()
        invariant
            i <= wallet.sent_notes@.len(),
            wallet.sent_notes@.len() == sent.len(),
            forall|k: int|
                0 <= k < i ==> #[trigger] wallet.sent_notes@[k] == legacy_sent(sent[k]),
            forall|k: int| i <= k < sent.len() ==> #[trigger] wallet.sent_notes@[k] == sent[k],
            (proto::MemoryWallet { sent_notes: after_received.sent_notes, ..*wallet })
                == after_received,
        decreases wallet.sent_notes@.len() - i,
    {
        sanitize_sent(&mut wallet.sent_notes[i]);
        i = i + 1;
    }
    assert(wallet.sent_notes@ =~= sent.map_values(|r: proto::SentNoteRecord| legacy_sent(r)));
    sanitize_accounts(&mut wallet.accounts);
    let ghost after_accounts = *wallet;
    let ghost blocks = wallet.blocks@;
    let mut i: usize = 0;
    while i < wallet.blocks.len()
        invariant
            i <= wallet.blocks@.len(),
            wallet.blocks@.len() == blocks.len(),
            forall|k: int| 0 <= k < i ==> #[trigger] wallet.blocks@[k] == legacy_block(blocks[k]),
            forall|k: int| i <= k < blocks.len() ==> #[trigger] wallet.blocks@[k] == blocks[k],
            (proto::MemoryWallet { blocks: after_accounts.blocks, ..*wallet }) == after_accounts,
        decreases wallet.blocks@.len() - i,
    {
        wallet.blocks[i].ironwood_commitment_tree_size = None;
        wallet.blocks[i].ironwood_action_count = None;
        i = i + 1;
    }
    assert(wallet.blocks@ =~= blocks.map_values(|r: proto::WalletBlock| legacy_block(r)));
    wallet.ironwood_tree = None;
    wallet.ironwood_tree_shard_end_heights = Vec::new();
}

/// What has been taken away is gone: doing it again changes nothing.
pub proof fn lemma_legacy_idempotent(a: proto::MemoryWallet, b: proto::MemoryWallet)
    requires
        is_legacy(a, b),
    ensures
        is_legacy(b, b),
{
    assert(b.blocks@ =~= b.blocks@.map_values(|r: proto::WalletBlock| legacy_block(r)));
    assert(b.received_note_table@ =~= b.received_note_table@.map_values(
        |r: proto::ReceivedNote| legacy_received(r),
    ));
    assert(b.sent_notes@ =~= b.sent_notes@.map_values(
        |r: proto::SentNoteRecord| legacy_sent(r),
    ));
}

} // verus!
