//! What scanning tells of a block, in terms of the block and of what the wallet knows.

use vstd::prelude::*;

use crate::consensus::BlockHeight;
use crate::consensus::NetworkUpgrade;
use crate::consensus::Params;
use crate::consensus::Zip212Enforcement;
use crate::field::jubjub_base_canonical;
use crate::field::pallas_base_canonical;

use super::batch::first_reading_error;
use super::batch::outputs_readable;
use super::batch::readable_in;
use super::batch::reading_error;
use super::batch::txs_readable;
use super::batch::BatchRunners;
use super::compact::action_nfs;
use super::compact::action_nfs_valid;
use super::compact::action_parts;
use super::compact::actions_valid;
use super::compact::first_unmet;
use super::compact::lemma_none_unmet;
use super::compact::output_parts;
use super::compact::outputs_valid;
use super::compact::spend_nfs;
use super::compact::spend_nfs_valid;
use super::compact::views;
use super::compact::ChainMetadata;
use super::compact::CompactBlock;
use super::compact::CompactOrchardAction;
use super::compact::CompactSaplingOutput;
use super::compact::CompactSaplingSpend;
use super::compact::CompactTx;
use super::pools::first_match;
use super::pools::ironwood_decryption;
use super::pools::orchard_decryption;
use super::pools::orchard_keys_of;
use super::pools::orchard_nullifier;
use super::pools::sapling_decryption;
use super::pools::sapling_keys_of;
use super::pools::sapling_nullifier;
use super::pools::AccountId;
use super::pools::AccountKeys;
use super::pools::IronwoodPool;
use super::pools::OrchardKey;
use super::pools::OrchardNote;
use super::pools::OrchardPool;
use super::pools::SaplingKey;
use super::pools::SaplingNote;
use super::pools::SaplingPool;
use super::pools::ScanningKeys;
use super::pools::Scope;
use super::pools::ShieldedPool;
use super::position::given;
use super::position::lemma_start_is_before;
use super::position::PositionTracker;
use super::scan::actions_countable;
use super::scan::after_txs;
use super::scan::among_first;
use super::scan::context_of;
use super::scan::continuity_error;
use super::scan::lemma_txs_read;
use super::scan::outputs_reached;
use super::scan::owner_of;
use super::scan::receive;
use super::scan::received;
use super::scan::runners_after;
use super::scan::runners_give_all;
use super::scan::scan_block;
use super::scan::scan_outcome;
use super::scan::spends_of;
use super::scan::spent_by;
use super::scan::tx_error;
use super::scan::txs_read;
use super::scan::txs_reached;
use super::scan::unlinked_of;
use super::scan::CommitmentView;
use super::scan::FoundView;
use super::scan::Nullifiers;
use super::scan::Retention;
use super::scan::ScanContext;
use super::scan::ScanState;
use super::scan::ScannedBlock;
use super::scan::TrackedView;
use super::scan::UnlinkedView;
use super::scan::WalletOutputView;
use super::scan::WalletSpend;
use super::scan::WalletSpendView;
use super::scan::WalletTx;
use super::scan::WalletTxView;
use super::BlockMetadata;
use super::NoteCommitmentTree;
use super::ScanError;

verus! {

/// Whether an account spends a note in a transaction, in the Sapling pool or in one of the others.
pub open spec fn account_spends(tx: WalletTx, account: AccountId) -> bool {
    ||| exists|i: int|
        0 <= i < tx.sapling_spends@.len() && (#[trigger] tx.sapling_spends@[i]).account == account
    ||| exists|i: int|
        0 <= i < tx.orchard_spends@.len() && (#[trigger] tx.orchard_spends@[i]).account == account
}

/// Whether exactly those notes that a transaction gives to an account that also spends one in it
/// are told to be change.
pub open spec fn change_told(tx: WalletTx) -> bool {
    &&& forall|i: int|
        0 <= i < tx.sapling_outputs@.len() ==> ((#[trigger] tx.sapling_outputs@[i]).is_change
            <==> account_spends(tx, tx.sapling_outputs@[i].account))
    &&& forall|i: int|
        0 <= i < tx.orchard_outputs@.len() ==> ((#[trigger] tx.orchard_outputs@[i]).is_change
            <==> account_spends(tx, tx.orchard_outputs@[i].account))
}

/// Whether this is so of all transactions of a block.
pub open spec fn all_change_told(txs: Seq<WalletTx>) -> bool {
    forall|j: int| 0 <= j < txs.len() ==> change_told(#[trigger] txs[j])
}

/// Whether a note is told to be change just if its account spends one.
spec fn change_is<N>(
    outputs: Seq<WalletOutputView<N>>,
    sapling_spends: Seq<WalletSpendView>,
    orchard_spends: Seq<WalletSpendView>,
) -> bool {
    forall|i: int|
        0 <= i < outputs.len() ==> ((#[trigger] outputs[i]).is_change <==> (spent_by(
            sapling_spends,
            outputs[i].account,
        ) || spent_by(orchard_spends, outputs[i].account)))
}

/// The notes that are received are told to be change by the spends.
proof fn lemma_change_of_received<P: ShieldedPool>(
    keys: Seq<P::Key>,
    outputs: Seq<<P::Output as View>::V>,
    found: Seq<Option<(P::Note, int)>>,
    spends: Seq<WalletSpendView>,
    offset: nat,
    position: nat,
    n: nat,
)
    ensures
        ({
            let r = received::<P>(keys, outputs, found, spends, offset, position, n);
            forall|i: int|
                0 <= i < r.len() ==> ((#[trigger] r[i]).is_change <==> spent_by(
                    spends,
                    r[i].account,
                ))
        }),
    decreases n,
{
    if n > 0 {
        lemma_change_of_received::<P>(
            keys,
            outputs,
            found,
            spends,
            offset,
            position,
            (n - 1) as nat,
        );
    }
}

/// An account spends in two lists just if it spends in one of them.
proof fn lemma_spent_by_joined(a: Seq<WalletSpendView>, b: Seq<WalletSpendView>)
    ensures
        forall|account: AccountId| #[trigger]
            spent_by(a + b, account) <==> spent_by(a, account) || spent_by(b, account),
{
    assert forall|account: AccountId| #[trigger] spent_by(a + b, account) <==> spent_by(a, account)
        || spent_by(b, account) by {
        if spent_by(a + b, account) {
            let i = choose|i: int| 0 <= i < (a + b).len() && (#[trigger] (a + b)[i]).account == account;
            if i < a.len() {
                assert(a[i].account == account);
            } else {
                assert(b[i - a.len()].account == account);
            }
        }
        if spent_by(a, account) {
            let i = choose|i: int| 0 <= i < a.len() && (#[trigger] a[i]).account == account;
            assert((a + b)[i].account == account);
        }
        if spent_by(b, account) {
            let i = choose|i: int| 0 <= i < b.len() && (#[trigger] b[i]).account == account;
            assert((a + b)[i + a.len()].account == account);
        }
    }
}

/// What a transaction holds for the wallet tells which notes are change.
proof fn lemma_change_in_tx(
    ctx: ScanContext,
    tracker: PositionTracker,
    tx: CompactTx,
    found: FoundView,
)
    ensures
        ({
            let w = ctx.wallet_tx(tracker, tx, found);
            &&& change_is(w.sapling_outputs, w.sapling_spends, w.orchard_spends)
            &&& change_is(w.orchard_outputs, w.sapling_spends, w.orchard_spends)
        }),
{
    let w = ctx.wallet_tx(tracker, tx, found);
    let spends = ctx.spends(tx);
    assert(spends =~= w.sapling_spends + w.orchard_spends);
    lemma_spent_by_joined(w.sapling_spends, w.orchard_spends);
    lemma_change_of_received::<SaplingPool>(
        ctx.sapling_keys,
        output_parts(tx.outputs@, ctx.zip212),
        found.sapling,
        spends,
        0,
        tracker.sapling_tree_position as nat,
        tx.outputs@.len(),
    );
    lemma_change_of_received::<OrchardPool>(
        ctx.orchard_keys,
        action_parts(tx.actions@),
        found.orchard,
        spends,
        0,
        tracker.orchard_tree_position as nat,
        tx.actions@.len(),
    );
    lemma_change_of_received::<IronwoodPool>(
        ctx.orchard_keys,
        action_parts(tx.ironwood_actions@),
        found.ironwood,
        spends,
        tx.actions@.len(),
        tracker.ironwood_tree_position as nat,
        tx.ironwood_actions@.len(),
    );
}

/// Each of the transactions so far tells which notes are change.
proof fn lemma_change_so_far(
    ctx: ScanContext,
    tracker: PositionTracker,
    txs: Seq<CompactTx>,
    found: Seq<FoundView>,
)
    ensures
        after_txs(ctx, tracker, txs, found) matches Ok(st) ==> forall|j: int|
            0 <= j < st.transactions.len() ==> change_is(
                (#[trigger] st.transactions[j]).sapling_outputs,
                st.transactions[j].sapling_spends,
                st.transactions[j].orchard_spends,
            ) && change_is(
                st.transactions[j].orchard_outputs,
                st.transactions[j].sapling_spends,
                st.transactions[j].orchard_spends,
            ),
    decreases txs.len(),
{
    if txs.len() > 0 {
        lemma_change_so_far(ctx, tracker, txs.drop_last(), found);
        if let Ok(st) = after_txs(ctx, tracker, txs.drop_last(), found) {
            lemma_change_in_tx(ctx, st.tracker, txs.last(), found[txs.len() - 1]);
        }
    }
}

/// In every transaction that scanning a block tells of, a note that the wallet receives is change
/// just if one of the spends told for the same transaction, of whatever pool, is of the account
/// that receives it.
pub proof fn lemma_change_by_spends(
    params: Params,
    block: CompactBlock,
    keys: ScanningKeys,
    nullifiers: Nullifiers,
    prior: Option<BlockMetadata>,
    found: Seq<FoundView>,
    transactions: Seq<WalletTx>,
)
    requires
        scan_outcome(params, block, keys, nullifiers, prior, found) matches Ok(st) && views(
            transactions,
        ) == st.transactions,
    ensures
        all_change_told(transactions),
{
    let ctx = context_of(params, block, keys, nullifiers);
    let tracker = PositionTracker::at_start(params, block, prior)->Ok_0;
    lemma_change_so_far(ctx, tracker, block.vtx@, found);
    let st = scan_outcome(params, block, keys, nullifiers, prior, found)->Ok_0;
    assert forall|j: int| 0 <= j < transactions.len() implies change_told(
        #[trigger] transactions[j],
    ) by {
        let tx = transactions[j];
        let w = st.transactions[j];
        assert(w == tx@);
        assert forall|a: AccountId| account_spends(tx, a) <==> (#[trigger] spent_by(
            w.sapling_spends,
            a,
        ) || spent_by(w.orchard_spends, a)) by {
            lemma_spent_by_views(tx.sapling_spends@, a);
            lemma_spent_by_views(tx.orchard_spends@, a);
        }
        assert forall|i: int| 0 <= i < tx.sapling_outputs@.len() implies ((
        #[trigger] tx.sapling_outputs@[i]).is_change <==> account_spends(
            tx,
            tx.sapling_outputs@[i].account,
        )) by {
            assert(w.sapling_outputs[i] == tx.sapling_outputs@[i]@);
        }
        assert forall|i: int| 0 <= i < tx.orchard_outputs@.len() implies ((
        #[trigger] tx.orchard_outputs@[i]).is_change <==> account_spends(
            tx,
            tx.orchard_outputs@[i].account,
        )) by {
            assert(w.orchard_outputs[i] == tx.orchard_outputs@[i]@);
        }
    }
}

/// An account spends just if it does by what the spends stand for.
proof fn lemma_spent_by_views(spends: Seq<WalletSpend>, account: AccountId)
    ensures
        spent_by(views(spends), account) <==> exists|i: int|
            0 <= i < spends.len() && (#[trigger] spends[i]).account == account,
{
    if spent_by(views(spends), account) {
        let i = choose|i: int|
            0 <= i < views(spends).len() && (#[trigger] views(spends)[i]).account == account;
        assert(spends[i].account == account);
    }
    assert forall|i: int|
        0 <= i < spends.len() && (#[trigger] spends[i]).account == account implies spent_by(
        views(spends),
        account,
    ) by {
        assert(views(spends)[i].account == account);
    }
}

/// Whether the wallet tracks a note with a nullifier.
pub open spec fn follows_nf(known: Seq<TrackedView>, nf: Seq<u8>) -> bool {
    exists|k: int| 0 <= k < known.len() && (#[trigger] known[k]).nf == nf
}

/// Whether an account is the one that a nullifier is tracked for, by the first entry where there
/// are more.
pub open spec fn tracked_for(known: Seq<TrackedView>, nf: Seq<u8>, account: AccountId) -> bool {
    exists|k: int|
        {
            &&& 0 <= k < known.len()
            &&& (#[trigger] known[k]).nf == nf
            &&& known[k].account == account
            &&& forall|l: int| 0 <= l < k ==> (#[trigger] known[l]).nf != nf
        }
}

/// Whether exactly the tracked ones of some nullifiers are told as spends, each once, in their
/// order, with its place from `offset` on and with the account that it is tracked for.
pub open spec fn spends_told(
    spends: Seq<WalletSpendView>,
    nfs: Seq<Seq<u8>>,
    known: Seq<TrackedView>,
    offset: int,
) -> bool {
    &&& forall|j: int|
        0 <= j < spends.len() ==> {
            &&& offset <= (#[trigger] spends[j]).index < offset + nfs.len()
            &&& spends[j].nf == nfs[spends[j].index - offset]
            &&& tracked_for(known, spends[j].nf, spends[j].account)
        }
    &&& forall|i: int, j: int|
        0 <= i < j < spends.len() ==> (#[trigger] spends[i]).index < (#[trigger] spends[j]).index
    &&& forall|i: int|
        0 <= i < nfs.len() && follows_nf(known, #[trigger] nfs[i]) ==> told_at(spends, offset + i)
}

/// Whether a spend is told at a place.
pub open spec fn told_at(spends: Seq<WalletSpendView>, index: int) -> bool {
    exists|j: int| 0 <= j < spends.len() && (#[trigger] spends[j]).index == index
}

/// Whether exactly those of some nullifiers that are not tracked are given.
pub open spec fn untracked_told(
    given: Seq<Seq<u8>>,
    nfs: Seq<Seq<u8>>,
    known: Seq<TrackedView>,
) -> bool {
    &&& forall|j: int| 0 <= j < given.len() ==> nfs.contains(#[trigger] given[j]) && !follows_nf(
        known,
        given[j],
    )
    &&& forall|i: int|
        0 <= i < nfs.len() && !follows_nf(known, #[trigger] nfs[i]) ==> given.contains(nfs[i])
}

/// The owner of a nullifier is the account that it is tracked for.
proof fn lemma_owner_tracks(known: Seq<TrackedView>, nf: Seq<u8>)
    ensures
        match owner_of(known, nf) {
            Some(account) => tracked_for(known, nf, account) && follows_nf(known, nf),
            None => !follows_nf(known, nf),
        },
    decreases known.len(),
{
    if known.len() > 0 && known[0].nf != nf {
        let rest = known.skip(1);
        lemma_owner_tracks(rest, nf);
        match owner_of(rest, nf) {
            Some(account) => {
                let k = choose|k: int|
                    {
                        &&& 0 <= k < rest.len()
                        &&& (#[trigger] rest[k]).nf == nf
                        &&& rest[k].account == account
                        &&& forall|l: int| 0 <= l < k ==> (#[trigger] rest[l]).nf != nf
                    };
                assert(known[k + 1] == rest[k]);
                assert forall|l: int| 0 <= l < k + 1 implies (#[trigger] known[l]).nf != nf by {
                    if l > 0 {
                        assert(known[l] == rest[l - 1]);
                    }
                }
            },
            None => {
                assert forall|k: int| 0 <= k < known.len() implies (#[trigger] known[k]).nf
                    != nf by {
                    if k > 0 {
                        assert(known[k] == rest[k - 1]);
                    }
                }
            },
        }
    } else if known.len() > 0 {
        assert(known[0].nf == nf);
    }
}

/// The nullifiers of notes that the wallet tracks are told as its spends, and the others are given.
proof fn lemma_spends_told(nfs: Seq<Seq<u8>>, known: Seq<TrackedView>, offset: nat)
    requires
        offset + nfs.len() <= usize::MAX,
    ensures
        spends_told(spends_of(nfs, known, offset), nfs, known, offset as int),
        untracked_told(unlinked_of(nfs, known), nfs, known),
        spends_of(nfs, known, offset).len() + unlinked_of(nfs, known).len() == nfs.len(),
    decreases nfs.len(),
{
    if nfs.len() > 0 {
        let first = nfs.drop_last();
        let before = spends_of(first, known, offset);
        let spends = spends_of(nfs, known, offset);
        let others = unlinked_of(first, known);
        let given = unlinked_of(nfs, known);
        lemma_spends_told(first, known, offset);
        lemma_owner_tracks(known, nfs.last());
        assert forall|j: int| 0 <= j < spends.len() implies {
            &&& offset <= (#[trigger] spends[j]).index < offset + nfs.len()
            &&& spends[j].nf == nfs[spends[j].index - offset]
            &&& tracked_for(known, spends[j].nf, spends[j].account)
        } by {
            if j < before.len() {
                assert(spends[j] == before[j]);
                assert(first[before[j].index - offset] == nfs[before[j].index - offset]);
            }
        }
        assert forall|i: int, j: int| 0 <= i < j < spends.len() implies (#[trigger] spends[i]).index
            < (#[trigger] spends[j]).index by {
            assert(spends[i] == before[i]);
            if j < before.len() {
                assert(spends[j] == before[j]);
            }
        }
        assert forall|i: int|
            0 <= i < nfs.len() && follows_nf(known, #[trigger] nfs[i]) implies told_at(
            spends,
            offset + i,
        ) by {
            if i < first.len() {
                assert(first[i] == nfs[i]);
                assert(told_at(before, offset + i));
                let j = choose|j: int|
                    0 <= j < before.len() && (#[trigger] before[j]).index == offset + i;
                assert(spends[j].index == offset + i);
            } else {
                assert(spends[spends.len() - 1].index == offset + i);
            }
        }
        assert forall|j: int| 0 <= j < given.len() implies nfs.contains(#[trigger] given[j])
            && !follows_nf(known, given[j]) by {
            if j < others.len() {
                assert(given[j] == others[j]);
                let i = choose|i: int| 0 <= i < first.len() && first[i] == others[j];
                assert(nfs[i] == given[j]);
            } else {
                assert(nfs[nfs.len() - 1] == given[j]);
            }
        }
        assert forall|i: int| 0 <= i < nfs.len() && !follows_nf(known, #[trigger] nfs[i]) implies
            given.contains(nfs[i]) by {
            if i < first.len() {
                assert(first[i] == nfs[i]);
                let j = choose|j: int| 0 <= j < others.len() && others[j] == first[i];
                assert(given[j] == nfs[i]);
            } else {
                assert(given[given.len() - 1] == nfs[i]);
            }
        }
    }
}

/// The spends among two lists of nullifiers, one numbered after the other, are those among both.
proof fn lemma_spends_joined(
    a: Seq<WalletSpendView>,
    b: Seq<WalletSpendView>,
    x: Seq<Seq<u8>>,
    y: Seq<Seq<u8>>,
    known: Seq<TrackedView>,
)
    requires
        spends_told(a, x, known, 0),
        spends_told(b, y, known, x.len() as int),
    ensures
        spends_told(a + b, x + y, known, 0),
{
    let spends = a + b;
    let nfs = x + y;
    assert forall|j: int| 0 <= j < spends.len() implies {
        &&& 0 <= (#[trigger] spends[j]).index < nfs.len()
        &&& spends[j].nf == nfs[spends[j].index as int]
        &&& tracked_for(known, spends[j].nf, spends[j].account)
    } by {
        if j < a.len() {
            assert(spends[j] == a[j]);
        } else {
            assert(spends[j] == b[j - a.len()]);
        }
    }
    assert forall|i: int, j: int| 0 <= i < j < spends.len() implies (#[trigger] spends[i]).index < (
    #[trigger] spends[j]).index by {
        if j < a.len() {
            assert(spends[i] == a[i] && spends[j] == a[j]);
        } else if i < a.len() {
            assert(spends[i] == a[i] && spends[j] == b[j - a.len()]);
        } else {
            assert(spends[i] == b[i - a.len()] && spends[j] == b[j - a.len()]);
        }
    }
    assert forall|i: int| 0 <= i < nfs.len() && follows_nf(known, #[trigger] nfs[i]) implies told_at(
        spends,
        0 + i,
    ) by {
        if i < x.len() {
            assert(nfs[i] == x[i]);
            assert(told_at(a, 0 + i));
            let j = choose|j: int| 0 <= j < a.len() && (#[trigger] a[j]).index == i;
            assert(spends[j].index == i);
        } else {
            assert(nfs[i] == y[i - x.len()]);
            assert(told_at(b, x.len() + (i - x.len())));
            let j = choose|j: int| 0 <= j < b.len() && (#[trigger] b[j]).index == i;
            assert(spends[a.len() + j].index == i);
        }
    }
}

/// Whether a note is told as received at a place.
pub open spec fn received_at<N>(outputs: Seq<WalletOutputView<N>>, index: int) -> bool {
    exists|j: int| 0 <= j < outputs.len() && (#[trigger] outputs[j]).index == index
}

/// Whether a Sapling note is told as it was found: with its place among the outputs, with the
/// account and the scope of the key that found it, and with the position of its commitment, where
/// `position` is that of the first output, by which its nullifier is derived.
pub open spec fn sapling_told(
    o: WalletOutputView<SaplingNote>,
    keys: Seq<SaplingKey>,
    outputs: Seq<CompactSaplingOutput>,
    found: Seq<Option<(SaplingNote, int)>>,
    position: int,
) -> bool {
    let i = o.index as int;
    &&& i < outputs.len()
    &&& found[i] matches Some((note, k)) && {
        &&& o.note == note
        &&& o.account == keys[k].account
        &&& o.recipient_key_scope == keys[k].scope
        &&& o.ephemeral_key == outputs[i].ephemeral_key@
        &&& o.note_commitment_tree_position == position + i
        &&& o.nf == sapling_nullifier(
            keys[k].dfvk@,
            keys[k].scope is Internal,
            note,
            (position + i) as u64,
        )
    }
}

/// Whether an Orchard or Ironwood note is told as it was found: with its place among the actions,
/// from `offset` on, with the account and the scope of the key that found it, and with the position
/// of its commitment, where `position` is that of the first action.
pub open spec fn orchard_told(
    o: WalletOutputView<OrchardNote>,
    keys: Seq<OrchardKey>,
    actions: Seq<CompactOrchardAction>,
    found: Seq<Option<(OrchardNote, int)>>,
    offset: int,
    position: int,
) -> bool {
    let i = o.index - offset;
    &&& 0 <= i < actions.len()
    &&& found[i] matches Some((note, k)) && {
        &&& o.note == note
        &&& o.account == keys[k].account
        &&& o.recipient_key_scope == keys[k].scope
        &&& o.ephemeral_key == actions[i].ephemeral_key@
        &&& o.note_commitment_tree_position == position + i
        &&& o.nf == orchard_nullifier(keys[k].fvk@, note)
    }
}

/// Whether a transaction is told as it is: under its identifier and its place in the block, with
/// the spends that its nullifiers reveal and the notes that were found in it, where the positions
/// are those of its first outputs. The Ironwood actions are numbered after the Orchard actions.
pub open spec fn tx_told(
    w: WalletTxView,
    tx: CompactTx,
    ctx: ScanContext,
    found: FoundView,
    sapling_position: int,
    orchard_position: int,
    ironwood_position: int,
) -> bool {
    let n = tx.actions@.len() as int;
    &&& w.txid == tx.txid@
    &&& w.block_index == tx.index
    &&& spends_told(w.sapling_spends, spend_nfs(tx.spends@), ctx.sapling_nfs, 0)
    &&& spends_told(
        w.orchard_spends,
        action_nfs(tx.actions@) + action_nfs(tx.ironwood_actions@),
        ctx.orchard_nfs,
        0,
    )
    &&& forall|j: int|
        0 <= j < w.sapling_outputs.len() ==> sapling_told(
            #[trigger] w.sapling_outputs[j],
            ctx.sapling_keys,
            tx.outputs@,
            found.sapling,
            sapling_position,
        )
    &&& forall|i: int|
        0 <= i < tx.outputs@.len() && #[trigger] found.sapling[i] is Some ==> received_at(
            w.sapling_outputs,
            i,
        )
    &&& forall|j: int|
        0 <= j < w.orchard_outputs.len() ==> (if (#[trigger] w.orchard_outputs[j]).index < n {
            orchard_told(
                w.orchard_outputs[j],
                ctx.orchard_keys,
                tx.actions@,
                found.orchard,
                0,
                orchard_position,
            )
        } else {
            orchard_told(
                w.orchard_outputs[j],
                ctx.orchard_keys,
                tx.ironwood_actions@,
                found.ironwood,
                n,
                ironwood_position,
            )
        })
    &&& forall|i: int|
        0 <= i < n && #[trigger] found.orchard[i] is Some ==> received_at(w.orchard_outputs, i)
    &&& forall|i: int|
        0 <= i < tx.ironwood_actions@.len() && #[trigger] found.ironwood[i] is Some ==> received_at(
            w.orchard_outputs,
            n + i,
        )
}

/// Whether a transaction holds something for the wallet: it reveals the nullifier of a note that
/// the wallet tracks, or a note was found in it.
pub open spec fn holds_something(tx: CompactTx, ctx: ScanContext, found: FoundView) -> bool {
    ||| exists|i: int|
        0 <= i < tx.spends@.len() && follows_nf(ctx.sapling_nfs, (#[trigger] tx.spends@[i]).nf@)
    ||| exists|i: int|
        0 <= i < tx.actions@.len() && follows_nf(
            ctx.orchard_nfs,
            (#[trigger] tx.actions@[i]).nullifier@,
        )
    ||| exists|i: int|
        0 <= i < tx.ironwood_actions@.len() && follows_nf(
            ctx.orchard_nfs,
            (#[trigger] tx.ironwood_actions@[i]).nullifier@,
        )
    ||| exists|i: int| 0 <= i < tx.outputs@.len() && #[trigger] found.sapling[i] is Some
    ||| exists|i: int| 0 <= i < tx.actions@.len() && #[trigger] found.orchard[i] is Some
    ||| exists|i: int| 0 <= i < tx.ironwood_actions@.len() && #[trigger] found.ironwood[i] is Some
}

/// Whether exactly the transactions that hold something for the wallet are told, each once and in
/// their order; `places` says where each of those told is in the block.
pub open spec fn txs_told(
    transactions: Seq<WalletTxView>,
    places: Seq<int>,
    txs: Seq<CompactTx>,
    ctx: ScanContext,
    found: Seq<FoundView>,
    start: PositionTracker,
) -> bool {
    &&& places.len() == transactions.len()
    &&& forall|j: int|
        0 <= j < places.len() ==> 0 <= #[trigger] places[j] < txs.len() && holds_something(
            txs[places[j]],
            ctx,
            found[places[j]],
        ) && tx_told(
            transactions[j],
            txs[places[j]],
            ctx,
            found[places[j]],
            start.sapling_tree_position + NoteCommitmentTree::Sapling.outputs_of(
                txs.take(places[j]),
            ),
            start.orchard_tree_position + NoteCommitmentTree::Orchard.outputs_of(
                txs.take(places[j]),
            ),
            start.ironwood_tree_position + NoteCommitmentTree::Ironwood.outputs_of(
                txs.take(places[j]),
            ),
        )
    &&& forall|i: int, j: int| 0 <= i < j < places.len() ==> #[trigger] places[i] < #[trigger] places[j]
    &&& forall|t: int|
        0 <= t < txs.len() && holds_something(#[trigger] txs[t], ctx, found[t]) ==> places.contains(
            t,
        )
}

/// The notes that are received are those that were found, each at its place.
proof fn lemma_received_told<P: ShieldedPool>(
    keys: Seq<P::Key>,
    outputs: Seq<<P::Output as View>::V>,
    found: Seq<Option<(P::Note, int)>>,
    spends: Seq<WalletSpendView>,
    offset: nat,
    position: nat,
    n: nat,
)
    requires
        offset + n <= usize::MAX,
    ensures
        ({
            let r = received::<P>(keys, outputs, found, spends, offset, position, n);
            &&& forall|j: int|
                0 <= j < r.len() ==> {
                    &&& offset <= (#[trigger] r[j]).index < offset + n
                    &&& found[r[j].index - offset] is Some
                    &&& r[j] == receive::<P>(
                        keys,
                        outputs[r[j].index - offset],
                        (found[r[j].index - offset]->0).0,
                        (found[r[j].index - offset]->0).1,
                        spends,
                        r[j].index as nat,
                        (position + r[j].index - offset) as nat,
                    )
                }
            &&& forall|i: int|
                0 <= i < n && #[trigger] found[i] is Some ==> received_at(r, offset + i)
        }),
    decreases n,
{
    if n > 0 {
        let m = (n - 1) as nat;
        let before = received::<P>(keys, outputs, found, spends, offset, position, m);
        let r = received::<P>(keys, outputs, found, spends, offset, position, n);
        lemma_received_told::<P>(keys, outputs, found, spends, offset, position, m);
        assert forall|j: int| 0 <= j < r.len() implies {
            &&& offset <= (#[trigger] r[j]).index < offset + n
            &&& found[r[j].index - offset] is Some
            &&& r[j] == receive::<P>(
                keys,
                outputs[r[j].index - offset],
                (found[r[j].index - offset]->0).0,
                (found[r[j].index - offset]->0).1,
                spends,
                r[j].index as nat,
                (position + r[j].index - offset) as nat,
            )
        } by {
            if j < before.len() {
                assert(r[j] == before[j]);
            }
        }
        assert forall|i: int| 0 <= i < n && #[trigger] found[i] is Some implies received_at(
            r,
            offset + i,
        ) by {
            if i < m {
                assert(received_at(before, offset + i));
                let j = choose|j: int|
                    0 <= j < before.len() && (#[trigger] before[j]).index == offset + i;
                assert(r[j].index == offset + i);
            } else {
                assert(r[r.len() - 1].index == offset + i);
            }
        }
    }
}

/// What is received in a first list or in a second is received in both together.
proof fn lemma_received_joined<N>(a: Seq<WalletOutputView<N>>, b: Seq<WalletOutputView<N>>, index: int)
    ensures
        received_at(a, index) ==> received_at(a + b, index),
        received_at(b, index) ==> received_at(a + b, index),
{
    if received_at(a, index) {
        let j = choose|j: int| 0 <= j < a.len() && (#[trigger] a[j]).index == index;
        assert((a + b)[j].index == index);
    }
    if received_at(b, index) {
        let j = choose|j: int| 0 <= j < b.len() && (#[trigger] b[j]).index == index;
        assert((a + b)[a.len() + j].index == index);
    }
}

/// What a transaction holds for the wallet is told as it is, and it is something just if the
/// transaction holds something.
#[verifier::spinoff_prover]
#[verifier::rlimit(40)]
proof fn lemma_tx_told(ctx: ScanContext, tracker: PositionTracker, tx: CompactTx, found: FoundView)
    requires
        actions_countable(tx),
        tracker.sapling_tree_position + tx.outputs@.len() <= u32::MAX,
        tracker.orchard_tree_position + tx.actions@.len() <= u32::MAX,
        tracker.ironwood_tree_position + tx.ironwood_actions@.len() <= u32::MAX,
    ensures
        tx_told(
            ctx.wallet_tx(tracker, tx, found),
            tx,
            ctx,
            found,
            tracker.sapling_tree_position as int,
            tracker.orchard_tree_position as int,
            tracker.ironwood_tree_position as int,
        ),
        ctx.wallet_tx(tracker, tx, found).concerns_wallet() <==> holds_something(tx, ctx, found),
{
    let w = ctx.wallet_tx(tracker, tx, found);
    let n = tx.actions@.len();
    let s_nfs = spend_nfs(tx.spends@);
    let o_nfs = action_nfs(tx.actions@);
    let i_nfs = action_nfs(tx.ironwood_actions@);
    let a = ctx.orchard_outputs(tracker, tx, found);
    let b = ctx.ironwood_outputs(tracker, tx, found);
    assert(tx.spends.len() == s_nfs.len());
    lemma_spends_told(s_nfs, ctx.sapling_nfs, 0);
    lemma_spends_told(o_nfs, ctx.orchard_nfs, 0);
    lemma_spends_told(i_nfs, ctx.orchard_nfs, n);
    lemma_spends_joined(
        ctx.orchard_spends(tx),
        ctx.ironwood_spends(tx),
        o_nfs,
        i_nfs,
        ctx.orchard_nfs,
    );
    lemma_received_told::<SaplingPool>(
        ctx.sapling_keys,
        output_parts(tx.outputs@, ctx.zip212),
        found.sapling,
        ctx.spends(tx),
        0,
        tracker.sapling_tree_position as nat,
        tx.outputs@.len(),
    );
    lemma_received_told::<OrchardPool>(
        ctx.orchard_keys,
        action_parts(tx.actions@),
        found.orchard,
        ctx.spends(tx),
        0,
        tracker.orchard_tree_position as nat,
        n,
    );
    lemma_received_told::<IronwoodPool>(
        ctx.orchard_keys,
        action_parts(tx.ironwood_actions@),
        found.ironwood,
        ctx.spends(tx),
        n,
        tracker.ironwood_tree_position as nat,
        tx.ironwood_actions@.len(),
    );
    assert forall|j: int| 0 <= j < w.orchard_outputs.len() implies (if (
    #[trigger] w.orchard_outputs[j]).index < n {
        orchard_told(
            w.orchard_outputs[j],
            ctx.orchard_keys,
            tx.actions@,
            found.orchard,
            0,
            tracker.orchard_tree_position as int,
        )
    } else {
        orchard_told(
            w.orchard_outputs[j],
            ctx.orchard_keys,
            tx.ironwood_actions@,
            found.ironwood,
            n as int,
            tracker.ironwood_tree_position as int,
        )
    }) by {
        if j < a.len() {
            assert(w.orchard_outputs[j] == a[j]);
        } else {
            assert(w.orchard_outputs[j] == b[j - a.len()]);
        }
    }
    assert forall|i: int| 0 <= i < tx.outputs@.len() && #[trigger] found.sapling[i] is Some implies
        received_at(w.sapling_outputs, i) by {
        assert(received_at(w.sapling_outputs, 0 + i));
    }
    assert forall|i: int| 0 <= i < n && #[trigger] found.orchard[i] is Some implies received_at(
        w.orchard_outputs,
        i,
    ) by {
        assert(received_at(a, 0 + i));
        lemma_received_joined(a, b, i);
    }
    assert forall|i: int|
        0 <= i < tx.ironwood_actions@.len() && #[trigger] found.ironwood[i] is Some implies
        received_at(w.orchard_outputs, n + i) by {
        lemma_received_joined(a, b, n + i);
    }
    lemma_concern_is_something(ctx, tracker, tx, found);
}

/// Where a transaction is told as it is, something is told of it just if it holds something.
#[verifier::spinoff_prover]
#[verifier::rlimit(40)]
proof fn lemma_concern_is_something(
    ctx: ScanContext,
    tracker: PositionTracker,
    tx: CompactTx,
    found: FoundView,
)
    requires
        tx_told(
            ctx.wallet_tx(tracker, tx, found),
            tx,
            ctx,
            found,
            tracker.sapling_tree_position as int,
            tracker.orchard_tree_position as int,
            tracker.ironwood_tree_position as int,
        ),
    ensures
        ctx.wallet_tx(tracker, tx, found).concerns_wallet() <==> holds_something(tx, ctx, found),
{
    let w = ctx.wallet_tx(tracker, tx, found);
    let n = tx.actions@.len() as int;
    let all = action_nfs(tx.actions@) + action_nfs(tx.ironwood_actions@);
    if w.concerns_wallet() {
        if w.sapling_spends.len() > 0 {
            let spend = w.sapling_spends[0];
            assert(follows_nf(ctx.sapling_nfs, tx.spends@[spend.index as int].nf@));
        } else if w.sapling_outputs.len() > 0 {
            let o = w.sapling_outputs[0];
            assert(found.sapling[o.index as int] is Some);
        } else if w.orchard_spends.len() > 0 {
            let spend = w.orchard_spends[0];
            if spend.index < n {
                assert(all[spend.index as int] == tx.actions@[spend.index as int].nullifier@);
                assert(follows_nf(ctx.orchard_nfs, tx.actions@[spend.index as int].nullifier@));
            } else {
                let i = spend.index - n;
                assert(all[spend.index as int] == tx.ironwood_actions@[i].nullifier@);
                assert(follows_nf(ctx.orchard_nfs, tx.ironwood_actions@[i].nullifier@));
            }
        } else {
            let o = w.orchard_outputs[0];
            if o.index < n {
                assert(found.orchard[o.index as int] is Some);
            } else {
                assert(found.ironwood[o.index - n] is Some);
            }
        }
    }
    assert forall|i: int|
        0 <= i < tx.spends@.len() && follows_nf(
            ctx.sapling_nfs,
            (#[trigger] tx.spends@[i]).nf@,
        ) implies w.concerns_wallet() by {
        assert(spend_nfs(tx.spends@)[i] == tx.spends@[i].nf@);
        assert(told_at(w.sapling_spends, 0 + i));
    }
    assert forall|i: int|
        0 <= i < tx.actions@.len() && follows_nf(
            ctx.orchard_nfs,
            (#[trigger] tx.actions@[i]).nullifier@,
        ) implies w.concerns_wallet() by {
        assert(all[i] == tx.actions@[i].nullifier@);
        assert(told_at(w.orchard_spends, 0 + i));
    }
    assert forall|i: int|
        0 <= i < tx.ironwood_actions@.len() && follows_nf(
            ctx.orchard_nfs,
            (#[trigger] tx.ironwood_actions@[i]).nullifier@,
        ) implies w.concerns_wallet() by {
        assert(all[n + i] == tx.ironwood_actions@[i].nullifier@);
        assert(told_at(w.orchard_spends, 0 + (n + i)));
    }
}

/// Whether a commitment is kept because the note behind it is of interest.
pub open spec fn marked(commitment: CommitmentView) -> bool {
    match commitment.retention {
        Retention::Marked => true,
        Retention::Checkpoint { id: _, marking } => marking is Marked,
        Retention::Ephemeral => false,
    }
}

/// Whether the outputs of transactions in a pool each have their commitment, in their order, kept
/// for the note just if one was found: `cells` are the commitments in the transactions and `found`
/// tells where a note was found.
pub open spec fn commitments_told(
    commitments: Seq<CommitmentView>,
    tree: NoteCommitmentTree,
    txs: Seq<CompactTx>,
    found: Seq<FoundView>,
) -> bool {
    &&& commitments.len() == tree.outputs_of(txs)
    &&& forall|t: int, i: int|
        #![trigger cell(tree, txs[t], i)]
        0 <= t < txs.len() && 0 <= i < tree.outputs_in(txs[t]) ==> {
            let commitment = commitments[tree.outputs_of(txs.take(t)) + i];
            &&& commitment.node == cell(tree, txs[t], i)
            &&& marked(commitment) <==> found_at(tree, found[t], i)
        }
}

/// The commitment in an output of a transaction.
pub open spec fn cell(tree: NoteCommitmentTree, tx: CompactTx, i: int) -> Seq<u8> {
    match tree {
        NoteCommitmentTree::Sapling => tx.outputs@[i].cmu@,
        NoteCommitmentTree::Orchard => tx.actions@[i].cmx@,
        NoteCommitmentTree::Ironwood => tx.ironwood_actions@[i].cmx@,
    }
}

/// Whether a note was found in an output of a transaction.
pub open spec fn found_at(tree: NoteCommitmentTree, found: FoundView, i: int) -> bool {
    match tree {
        NoteCommitmentTree::Sapling => found.sapling[i] is Some,
        NoteCommitmentTree::Orchard => found.orchard[i] is Some,
        NoteCommitmentTree::Ironwood => found.ironwood[i] is Some,
    }
}

/// The nullifiers that a transaction reveals in a pool.
pub open spec fn revealed(tree: NoteCommitmentTree, tx: CompactTx) -> Seq<Seq<u8>> {
    match tree {
        NoteCommitmentTree::Sapling => tx.spends@.map_values(|s: CompactSaplingSpend| s.nf@),
        NoteCommitmentTree::Orchard => tx.actions@.map_values(
            |a: CompactOrchardAction| a.nullifier@,
        ),
        NoteCommitmentTree::Ironwood => tx.ironwood_actions@.map_values(
            |a: CompactOrchardAction| a.nullifier@,
        ),
    }
}

/// Whether there is an entry for each transaction that gives, under its identifier and its place in
/// the block, exactly the nullifiers that it reveals in a pool and that the wallet does not track.
pub open spec fn nullifiers_told(
    nullifier_map: Seq<UnlinkedView>,
    tree: NoteCommitmentTree,
    txs: Seq<CompactTx>,
    known: Seq<TrackedView>,
) -> bool {
    &&& nullifier_map.len() == txs.len()
    &&& forall|t: int|
        0 <= t < txs.len() ==> {
            &&& (#[trigger] nullifier_map[t]).tx_index == txs[t].index
            &&& nullifier_map[t].txid == txs[t].txid@
            &&& untracked_told(nullifier_map[t].nullifiers, revealed(tree, txs[t]), known)
        }
}

/// The commitments of one more transaction are told as they are.
proof fn lemma_commitments_step(
    commitments: Seq<CommitmentView>,
    tree: NoteCommitmentTree,
    txs: Seq<CompactTx>,
    found: Seq<FoundView>,
    added: Seq<CommitmentView>,
)
    requires
        txs.len() > 0,
        commitments_told(commitments, tree, txs.drop_last(), found),
        added.len() == tree.outputs_in(txs.last()),
        forall|i: int|
            #![trigger added[i]]
            0 <= i < added.len() ==> added[i].node == cell(tree, txs.last(), i) && (marked(added[i])
                <==> found_at(tree, found[txs.len() - 1], i)),
    ensures
        commitments_told(commitments + added, tree, txs, found),
{
    let first = txs.drop_last();
    let all = commitments + added;
    assert forall|t: int, i: int|
        #![trigger cell(tree, txs[t], i)]
        0 <= t < txs.len() && 0 <= i < tree.outputs_in(txs[t]) implies {
        let commitment = all[tree.outputs_of(txs.take(t)) + i];
        &&& commitment.node == cell(tree, txs[t], i)
        &&& marked(commitment) <==> found_at(tree, found[t], i)
    } by {
        if t < first.len() {
            assert(first[t] == txs[t]);
            assert(cell(tree, first[t], i) == cell(tree, txs[t], i));
            assert(first.take(t) =~= txs.take(t));
            assert(first.take(t + 1).drop_last() =~= first.take(t));
            tree.lemma_outputs_of_take(first, t + 1);
            assert(all[tree.outputs_of(txs.take(t)) + i] == commitments[tree.outputs_of(
                first.take(t),
            ) + i]);
        } else {
            assert(txs.take(t) =~= first);
            assert(all[commitments.len() + i] == added[i]);
        }
    }
}

/// The nullifiers of one more transaction are told as they are.
proof fn lemma_nullifiers_step(
    nullifier_map: Seq<UnlinkedView>,
    tree: NoteCommitmentTree,
    txs: Seq<CompactTx>,
    known: Seq<TrackedView>,
    added: UnlinkedView,
)
    requires
        txs.len() > 0,
        nullifiers_told(nullifier_map, tree, txs.drop_last(), known),
        added.tx_index == txs.last().index,
        added.txid == txs.last().txid@,
        added.nullifiers == unlinked_of(revealed(tree, txs.last()), known),
    ensures
        nullifiers_told(nullifier_map.push(added), tree, txs, known),
{
    let nfs = revealed(tree, txs.last());
    let tx = txs.last();
    assert(tx.spends.len() == tx.spends@.len());
    assert(tx.actions.len() == tx.actions@.len());
    assert(tx.ironwood_actions.len() == tx.ironwood_actions@.len());
    assert(nfs.len() <= usize::MAX);
    lemma_spends_told(nfs, known, 0);
    let all = nullifier_map.push(added);
    assert forall|t: int| 0 <= t < txs.len() implies {
        &&& (#[trigger] all[t]).tx_index == txs[t].index
        &&& all[t].txid == txs[t].txid@
        &&& untracked_told(all[t].nullifiers, revealed(tree, txs[t]), known)
    } by {
        if t < nullifier_map.len() {
            assert(all[t] == nullifier_map[t]);
            assert(txs.drop_last()[t] == txs[t]);
        }
    }
}

/// Whether the transactions, the commitments and the nullifiers are told as they are.
pub open spec fn state_told(
    st: ScanState,
    places: Seq<int>,
    txs: Seq<CompactTx>,
    ctx: ScanContext,
    found: Seq<FoundView>,
    start: PositionTracker,
) -> bool {
    &&& txs_told(st.transactions, places, txs, ctx, found, start)
    &&& commitments_told(st.sapling.commitments, NoteCommitmentTree::Sapling, txs, found)
    &&& commitments_told(st.orchard.commitments, NoteCommitmentTree::Orchard, txs, found)
    &&& commitments_told(st.ironwood.commitments, NoteCommitmentTree::Ironwood, txs, found)
    &&& nullifiers_told(
        st.sapling.nullifier_map,
        NoteCommitmentTree::Sapling,
        txs,
        ctx.sapling_nfs,
    )
    &&& nullifiers_told(
        st.orchard.nullifier_map,
        NoteCommitmentTree::Orchard,
        txs,
        ctx.orchard_nfs,
    )
    &&& nullifiers_told(
        st.ironwood.nullifier_map,
        NoteCommitmentTree::Ironwood,
        txs,
        ctx.orchard_nfs,
    )
    &&& st.tracker.sapling_tree_position == start.sapling_tree_position
        + NoteCommitmentTree::Sapling.outputs_of(txs)
    &&& st.tracker.orchard_tree_position == start.orchard_tree_position
        + NoteCommitmentTree::Orchard.outputs_of(txs)
    &&& st.tracker.ironwood_tree_position == start.ironwood_tree_position
        + NoteCommitmentTree::Ironwood.outputs_of(txs)
}

/// The transactions told with one more.
proof fn lemma_txs_step(
    transactions: Seq<WalletTxView>,
    places: Seq<int>,
    txs: Seq<CompactTx>,
    ctx: ScanContext,
    found: Seq<FoundView>,
    start: PositionTracker,
    w: WalletTxView,
) -> (more: Seq<int>)
    requires
        txs.len() > 0,
        txs_told(transactions, places, txs.drop_last(), ctx, found, start),
        tx_told(
            w,
            txs.last(),
            ctx,
            found[txs.len() - 1],
            start.sapling_tree_position + NoteCommitmentTree::Sapling.outputs_of(txs.drop_last()),
            start.orchard_tree_position + NoteCommitmentTree::Orchard.outputs_of(txs.drop_last()),
            start.ironwood_tree_position + NoteCommitmentTree::Ironwood.outputs_of(txs.drop_last()),
        ),
        w.concerns_wallet() <==> holds_something(txs.last(), ctx, found[txs.len() - 1]),
    ensures
        txs_told(
            if w.concerns_wallet() {
                transactions.push(w)
            } else {
                transactions
            },
            more,
            txs,
            ctx,
            found,
            start,
        ),
{
    let first = txs.drop_last();
    let last = txs.len() - 1;
    let more = if w.concerns_wallet() {
        places.push(last)
    } else {
        places
    };
    let all = if w.concerns_wallet() {
        transactions.push(w)
    } else {
        transactions
    };
    assert forall|j: int| 0 <= j < more.len() implies 0 <= #[trigger] more[j] < txs.len()
        && holds_something(txs[more[j]], ctx, found[more[j]]) && tx_told(
        all[j],
        txs[more[j]],
        ctx,
        found[more[j]],
        start.sapling_tree_position + NoteCommitmentTree::Sapling.outputs_of(txs.take(more[j])),
        start.orchard_tree_position + NoteCommitmentTree::Orchard.outputs_of(txs.take(more[j])),
        start.ironwood_tree_position + NoteCommitmentTree::Ironwood.outputs_of(txs.take(more[j])),
    ) by {
        if j < places.len() {
            assert(more[j] == places[j]);
            assert(first[places[j]] == txs[places[j]]);
            assert(first.take(places[j]) =~= txs.take(places[j]));
        } else {
            assert(txs.take(last) =~= first);
        }
    }
    assert forall|t: int|
        0 <= t < txs.len() && holds_something(#[trigger] txs[t], ctx, found[t]) implies more.contains(
        t,
    ) by {
        if t < last {
            assert(first[t] == txs[t]);
            assert(places.contains(t));
            let j = choose|j: int| 0 <= j < places.len() && places[j] == t;
            assert(more[j] == t);
        } else {
            assert(more[more.len() - 1] == t);
        }
    }
    more
}

/// After the first transactions of a block, what was scanned is told as it is.
#[verifier::spinoff_prover]
#[verifier::rlimit(40)]
proof fn lemma_told_so_far(
    ctx: ScanContext,
    start: PositionTracker,
    txs: Seq<CompactTx>,
    found: Seq<FoundView>,
    n: int,
) -> (places: Seq<int>)
    requires
        0 <= n <= txs.len(),
        start.before(txs),
        forall|t: int| 0 <= t < txs.len() ==> actions_countable(#[trigger] txs[t]),
        after_txs(ctx, start, txs.take(n), found) is Ok,
    ensures
        after_txs(ctx, start, txs.take(n), found) matches Ok(st) ==> state_told(
            st,
            places,
            txs.take(n),
            ctx,
            found,
            start,
        ),
    decreases n,
{
    let s = NoteCommitmentTree::Sapling;
    let o = NoteCommitmentTree::Orchard;
    let i = NoteCommitmentTree::Ironwood;
    let first = txs.take(n);
    if n == 0 {
        assert(first =~= Seq::empty());
        Seq::empty()
    } else {
        let before = txs.take(n - 1);
        assert(first.drop_last() =~= before);
        let places = lemma_told_so_far(ctx, start, txs, found, n - 1);
        let st = after_txs(ctx, start, before, found)->Ok_0;
        let tx = txs[n - 1];
        let part = found[n - 1];
        assert(first.last() == tx);
        s.lemma_outputs_of_take(txs, n);
        o.lemma_outputs_of_take(txs, n);
        i.lemma_outputs_of_take(txs, n);
        assert(start.position(s) + s.outputs_of(txs) == start.final_size(s));
        assert(start.position(o) + o.outputs_of(txs) == start.final_size(o));
        assert(start.position(i) + i.outputs_of(txs) == start.final_size(i));
        lemma_tx_told(ctx, st.tracker, tx, part);
        let w = ctx.wallet_tx(st.tracker, tx, part);
        let more = lemma_txs_step(st.transactions, places, first, ctx, found, start, w);
        let (s_added, s_unlinked) = ctx.sapling_bundle(st.tracker, tx, part);
        let (o_added, o_unlinked) = ctx.orchard_bundle(st.tracker, tx, part);
        let (i_added, i_unlinked) = ctx.ironwood_bundle(st.tracker, tx, part);
        lemma_commitments_step(st.sapling.commitments, s, first, found, s_added);
        lemma_commitments_step(st.orchard.commitments, o, first, found, o_added);
        lemma_commitments_step(st.ironwood.commitments, i, first, found, i_added);
        assert(revealed(s, tx) =~= spend_nfs(tx.spends@));
        assert(revealed(o, tx) =~= action_nfs(tx.actions@));
        assert(revealed(i, tx) =~= action_nfs(tx.ironwood_actions@));
        lemma_nullifiers_step(st.sapling.nullifier_map, s, first, ctx.sapling_nfs, s_unlinked);
        lemma_nullifiers_step(st.orchard.nullifier_map, o, first, ctx.orchard_nfs, o_unlinked);
        lemma_nullifiers_step(st.ironwood.nullifier_map, i, first, ctx.orchard_nfs, i_unlinked);
        more
    }
}

/// Scanning a block tells exactly of the transactions that hold something for the wallet, in their
/// order: each with the spends of the notes that the wallet tracks and with the notes that were
/// found, at their places and positions. Every output has its commitment, kept for its note just
/// if one was found in it, and every nullifier that the wallet does not track is given for its
/// transaction. The trees grow by as many as the block has outputs.
pub proof fn lemma_block_told(
    params: Params,
    block: CompactBlock,
    keys: ScanningKeys,
    nullifiers: Nullifiers,
    prior: Option<BlockMetadata>,
    found: Seq<FoundView>,
)
    requires
        scan_outcome(params, block, keys, nullifiers, prior, found) is Ok,
        forall|t: int| 0 <= t < block.vtx@.len() ==> actions_countable(#[trigger] block.vtx@[t]),
    ensures
        exists|places: Seq<int>, start: PositionTracker| #[trigger]
            state_told(
                scan_outcome(params, block, keys, nullifiers, prior, found)->Ok_0,
                places,
                block.vtx@,
                ScanContext {
                    height: block.height,
                    zip212: params.zip212_rule(block.height),
                    sapling_keys: keys.sapling_seq(),
                    orchard_keys: keys.orchard_seq(),
                    sapling_nfs: views(nullifiers.sapling@),
                    orchard_nfs: views(nullifiers.orchard@),
                },
                found,
                start,
            ) && starts_at(start, block, prior),
{
    let ctx = context_of(params, block, keys, nullifiers);
    let start = PositionTracker::at_start(params, block, prior)->Ok_0;
    let txs = block.vtx@;
    let st = scan_outcome(params, block, keys, nullifiers, prior, found)->Ok_0;
    lemma_start_is_before(params, block, prior);
    assert(txs.take(txs.len() as int) =~= txs);
    let places = lemma_told_so_far(ctx, start, txs, found, txs.len() as int);
    assert(state_told(st, places, txs, ctx, found, start));
    assert(starts_at(start, block, prior));
}

/// Whether the trees have the sizes before a block that are known of the block before, and after it
/// the ones that the block claims; where neither tells a size, it is zero.
pub open spec fn starts_at(
    start: PositionTracker,
    block: CompactBlock,
    prior: Option<BlockMetadata>,
) -> bool {
    &&& prior matches Some(m) ==> {
        &&& m.sapling_tree_size matches Some(n) ==> start.sapling_tree_position == n
        &&& m.orchard_tree_size matches Some(n) ==> start.orchard_tree_position == n
        &&& m.ironwood_tree_size matches Some(n) ==> start.ironwood_tree_position == n
    }
    &&& match block.chain_metadata {
        Some(m) => {
            &&& start.sapling_tree_position + NoteCommitmentTree::Sapling.outputs_of(block.vtx@)
                == m.sapling_commitment_tree_size
            &&& start.orchard_tree_position + NoteCommitmentTree::Orchard.outputs_of(block.vtx@)
                == m.orchard_commitment_tree_size
            &&& start.ironwood_tree_position + NoteCommitmentTree::Ironwood.outputs_of(block.vtx@)
                == m.ironwood_commitment_tree_size
        },
        None => {
            &&& prior is None || prior->0.sapling_tree_size is None ==> start.sapling_tree_position
                == 0
            &&& prior is None || prior->0.orchard_tree_size is None ==> start.orchard_tree_position
                == 0
            &&& prior is None || prior->0.ironwood_tree_size is None
                ==> start.ironwood_tree_position == 0
        },
    }
}

/// Whether a Sapling output is encoded as it should be.
pub open spec fn output_readable(output: CompactSaplingOutput) -> bool {
    &&& jubjub_base_canonical(output.cmu@)
    &&& output.ephemeral_key@.len() == 32
    &&& output.ciphertext@.len() == 52
}

/// Whether an action is encoded as it should be.
pub open spec fn action_readable(action: CompactOrchardAction) -> bool {
    &&& pallas_base_canonical(action.nullifier@)
    &&& pallas_base_canonical(action.cmx@)
    &&& action.ephemeral_key@.len() == 32
    &&& action.ciphertext@.len() == 52
}

/// Whether all items of a transaction are encoded as they should be.
pub open spec fn tx_readable(tx: CompactTx) -> bool {
    &&& forall|i: int| 0 <= i < tx.spends@.len() ==> (#[trigger] tx.spends@[i]).nf@.len() == 32
    &&& forall|i: int| 0 <= i < tx.outputs@.len() ==> output_readable(#[trigger] tx.outputs@[i])
    &&& forall|i: int| 0 <= i < tx.actions@.len() ==> action_readable(#[trigger] tx.actions@[i])
    &&& forall|i: int|
        0 <= i < tx.ironwood_actions@.len() ==> action_readable(#[trigger] tx.ironwood_actions@[i])
}

/// Whether the item at a place of a transaction is not encoded as it should be.
pub open spec fn item_unreadable(tree: NoteCommitmentTree, tx: CompactTx, i: int) -> bool {
    match tree {
        NoteCommitmentTree::Sapling => {
            ||| 0 <= i < tx.spends@.len() && tx.spends@[i].nf@.len() != 32
            ||| 0 <= i < tx.outputs@.len() && !output_readable(tx.outputs@[i])
        },
        NoteCommitmentTree::Orchard => 0 <= i < tx.actions@.len() && !action_readable(
            tx.actions@[i],
        ),
        NoteCommitmentTree::Ironwood => 0 <= i < tx.ironwood_actions@.len() && !action_readable(
            tx.ironwood_actions@[i],
        ),
    }
}

/// The first item that does not hold is one that does not.
proof fn lemma_first_unmet_is(met: Seq<bool>)
    requires
        met.len() <= usize::MAX,
    ensures
        first_unmet(met) matches Some(i) ==> i < met.len() && !met[i as int],
    decreases met.len(),
{
    if met.len() > 0 {
        lemma_first_unmet_is(met.drop_last());
    }
}

/// A transaction is refused just if some item of it is not encoded as it should be, and the error
/// says which.
proof fn lemma_tx_error(at_height: BlockHeight, tx: CompactTx)
    ensures
        match tx_error(at_height, tx) {
            None => tx_readable(tx),
            Some(e) => e matches ScanError::EncodingInvalid { at_height: h, txid, tree, index }
                && h == at_height && txid == tx.txid && item_unreadable(tree, tx, index as int),
        },
{
    assert(tx.spends.len() == tx.spends@.len());
    assert(tx.outputs.len() == tx.outputs@.len());
    assert(tx.actions.len() == tx.actions@.len());
    assert(tx.ironwood_actions.len() == tx.ironwood_actions@.len());
    lemma_first_unmet_is(spend_nfs_valid(tx.spends@));
    lemma_first_unmet_is(action_nfs_valid(tx.actions@));
    lemma_first_unmet_is(action_nfs_valid(tx.ironwood_actions@));
    lemma_first_unmet_is(outputs_valid(tx.outputs@));
    lemma_first_unmet_is(actions_valid(tx.actions@));
    lemma_first_unmet_is(actions_valid(tx.ironwood_actions@));
    if tx_error(at_height, tx) is None {
        lemma_none_unmet(spend_nfs_valid(tx.spends@));
        lemma_none_unmet(outputs_valid(tx.outputs@));
        lemma_none_unmet(actions_valid(tx.actions@));
        lemma_none_unmet(actions_valid(tx.ironwood_actions@));
        assert forall|i: int| 0 <= i < tx.spends@.len() implies (
        #[trigger] tx.spends@[i]).nf@.len() == 32 by {
            assert(spend_nfs_valid(tx.spends@)[i]);
        }
        assert forall|i: int| 0 <= i < tx.outputs@.len() implies output_readable(
            #[trigger] tx.outputs@[i],
        ) by {
            assert(outputs_valid(tx.outputs@)[i]);
        }
        assert forall|i: int| 0 <= i < tx.actions@.len() implies action_readable(
            #[trigger] tx.actions@[i],
        ) by {
            assert(actions_valid(tx.actions@)[i]);
        }
        assert forall|i: int| 0 <= i < tx.ironwood_actions@.len() implies action_readable(
            #[trigger] tx.ironwood_actions@[i],
        ) by {
            assert(actions_valid(tx.ironwood_actions@)[i]);
        }
    }
}

/// Whether an error says that an item of a transaction of a block is not encoded as it should be,
/// when all transactions before it are.
pub open spec fn is_encoding_error(e: ScanError, at_height: BlockHeight, txs: Seq<CompactTx>) -> bool {
    e matches ScanError::EncodingInvalid { at_height: h, txid, tree, index } && h == at_height
        && exists|t: int|
        {
            &&& 0 <= t < txs.len()
            &&& (#[trigger] txs[t]).txid == txid
            &&& item_unreadable(tree, txs[t], index as int)
            &&& forall|u: int| 0 <= u < t ==> tx_readable(#[trigger] txs[u])
        }
}

/// Scanning gets past all transactions just if all can be read, and else says what cannot.
proof fn lemma_encoding_errors(
    ctx: ScanContext,
    tracker: PositionTracker,
    txs: Seq<CompactTx>,
    found: Seq<FoundView>,
)
    ensures
        match after_txs(ctx, tracker, txs, found) {
            Ok(_) => forall|t: int| 0 <= t < txs.len() ==> tx_readable(#[trigger] txs[t]),
            Err(e) => is_encoding_error(e, ctx.height, txs),
        },
    decreases txs.len(),
{
    if txs.len() > 0 {
        let first = txs.drop_last();
        lemma_encoding_errors(ctx, tracker, first, found);
        lemma_tx_error(ctx.height, txs.last());
        match after_txs(ctx, tracker, first, found) {
            Ok(_) => {
                assert forall|u: int| 0 <= u < txs.len() - 1 implies tx_readable(#[trigger] txs[u]) by {
                    assert(first[u] == txs[u]);
                }
                assert(txs[txs.len() - 1] == txs.last());
            },
            Err(e) => {
                if let ScanError::EncodingInvalid { at_height, txid, tree, index } = e {
                    let t = choose|t: int|
                        {
                            &&& 0 <= t < first.len()
                            &&& (#[trigger] first[t]).txid == txid
                            &&& item_unreadable(tree, first[t], index as int)
                            &&& forall|u: int| 0 <= u < t ==> tx_readable(#[trigger] first[u])
                        };
                    assert(txs[t] == first[t]);
                    assert forall|u: int| 0 <= u < t implies tx_readable(#[trigger] txs[u]) by {
                        assert(first[u] == txs[u]);
                    }
                }
            },
        }
    }
}

/// The size that a tree is known to have before a block.
pub open spec fn known_size(tree: NoteCommitmentTree, prior: Option<BlockMetadata>) -> Option<u32> {
    match prior {
        Some(m) => match tree {
            NoteCommitmentTree::Sapling => m.sapling_tree_size,
            NoteCommitmentTree::Orchard => m.orchard_tree_size,
            NoteCommitmentTree::Ironwood => m.ironwood_tree_size,
        },
        None => None,
    }
}

/// The size that a block claims for a tree.
pub open spec fn claimed(tree: NoteCommitmentTree, block: CompactBlock) -> Option<u32> {
    match block.chain_metadata {
        Some(m) => Some(
            match tree {
                NoteCommitmentTree::Sapling => m.sapling_commitment_tree_size,
                NoteCommitmentTree::Orchard => m.orchard_commitment_tree_size,
                NoteCommitmentTree::Ironwood => m.ironwood_commitment_tree_size,
            },
        ),
        None => None,
    }
}

/// Whether an error says truly why a block is refused.
pub open spec fn error_true(
    e: ScanError,
    params: Params,
    block: CompactBlock,
    prior: Option<BlockMetadata>,
) -> bool {
    match e {
        ScanError::BlockHeightDiscontinuity { prev_height, new_height } => {
            &&& prior matches Some(m) && m.block_height == prev_height
            &&& new_height == block.height
            &&& new_height != prev_height + 1
        },
        ScanError::PrevHashMismatch { at_height } => {
            &&& at_height == block.height
            &&& prior matches Some(m) && m.block_hash@ != block.prev_hash@
        },
        ScanError::TreeSizeUnknown { tree, at_height } => {
            &&& at_height == block.height
            &&& known_size(tree, prior) is None
            &&& claimed(tree, block) is None
            &&& params.active(
                match tree {
                    NoteCommitmentTree::Sapling => NetworkUpgrade::Sapling,
                    NoteCommitmentTree::Orchard => NetworkUpgrade::Nu5,
                    NoteCommitmentTree::Ironwood => NetworkUpgrade::Nu6_3,
                },
                at_height,
            )
        },
        ScanError::TreeSizeInvalid { tree, at_height } => {
            &&& at_height == block.height
            &&& known_size(tree, prior) is None
            &&& claimed(tree, block) matches Some(size) && size < tree.outputs_of(block.vtx@)
        },
        ScanError::TreeSizeOverflow { tree, at_height } => {
            &&& at_height == block.height
            &&& (match known_size(tree, prior) {
                Some(size) => size as int,
                None => 0,
            }) + tree.outputs_of(block.vtx@) > u32::MAX
        },
        ScanError::TreeSizeMismatch { tree, at_height, given, computed } => {
            &&& at_height == block.height
            &&& claimed(tree, block) == Some(given)
            &&& known_size(tree, prior) matches Some(size) && computed == size + tree.outputs_of(
                block.vtx@,
            )
            &&& given != computed
        },
        ScanError::EncodingInvalid { .. } => is_encoding_error(e, block.height, block.vtx@),
    }
}

/// The sizes of a tree around a block are told just if they are known, and an error is true.
proof fn lemma_sizes_around(
    tree: NoteCommitmentTree,
    params: Params,
    block: CompactBlock,
    prior: Option<BlockMetadata>,
)
    ensures
        tree.sizes_around(params, block, prior) matches Err(e) ==> error_true(
            e,
            params,
            block,
            prior,
        ),
{
}

/// A block that is refused is refused for a true reason: it does not follow on the block before, the
/// size of a tree before it cannot be told, a tree outgrows what can be counted, an item of it is not
/// encoded as it should be, or the size that it claims is not the one that its outputs lead to.
#[verifier::spinoff_prover]
#[verifier::rlimit(40)]
pub proof fn lemma_refusals_true(
    params: Params,
    block: CompactBlock,
    keys: ScanningKeys,
    nullifiers: Nullifiers,
    prior: Option<BlockMetadata>,
    found: Seq<FoundView>,
)
    ensures
        match scan_outcome(params, block, keys, nullifiers, prior, found) {
            Err(e) => error_true(e, params, block, prior),
            Ok(_) => {
                &&& prior matches Some(m) ==> {
                    &&& block.height == m.block_height + 1 || m.block_height == u32::MAX
                    &&& block.prev_hash@ == m.block_hash@
                }
                &&& forall|t: int|
                    0 <= t < block.vtx@.len() ==> tx_readable(#[trigger] block.vtx@[t])
                &&& known_sizes_suffice(NoteCommitmentTree::Sapling, params, block, prior)
                &&& known_sizes_suffice(NoteCommitmentTree::Orchard, params, block, prior)
                &&& known_sizes_suffice(NoteCommitmentTree::Ironwood, params, block, prior)
            },
        },
{
    let s = NoteCommitmentTree::Sapling;
    let o = NoteCommitmentTree::Orchard;
    let i = NoteCommitmentTree::Ironwood;
    lemma_sizes_around(s, params, block, prior);
    lemma_sizes_around(o, params, block, prior);
    lemma_sizes_around(i, params, block, prior);
    let ctx = context_of(params, block, keys, nullifiers);
    if let Ok(start) = PositionTracker::at_start(params, block, prior) {
        lemma_encoding_errors(ctx, start, block.vtx@, found);
        if let Ok(st) = after_txs(ctx, start, block.vtx@, found) {
            lemma_start_is_before(params, block, prior);
            lemma_positions_after(ctx, start, block.vtx@, found, block.vtx@.len() as int);
            assert(block.vtx@.take(block.vtx@.len() as int) =~= block.vtx@);
            assert(start.position(s) + s.outputs_of(block.vtx@) == start.final_size(s));
            assert(start.position(o) + o.outputs_of(block.vtx@) == start.final_size(o));
            assert(start.position(i) + i.outputs_of(block.vtx@) == start.final_size(i));
            assert(st.tracker.position(s) == start.final_size(s));
            assert(st.tracker.position(o) == start.final_size(o));
            assert(st.tracker.position(i) == start.final_size(i));
        }
    }
}

/// Whether the size of a tree before a block can be told: it is known of the block before, or the
/// block claims one that its own outputs fit in, or its pool has not come into being.
pub open spec fn known_sizes_suffice(
    tree: NoteCommitmentTree,
    params: Params,
    block: CompactBlock,
    prior: Option<BlockMetadata>,
) -> bool {
    let added = tree.outputs_of(block.vtx@);
    &&& match (known_size(tree, prior), claimed(tree, block)) {
        (Some(before), Some(after)) => after == before + added,
        (Some(before), None) => before + added <= u32::MAX,
        (None, Some(after)) => added <= after,
        (None, None) => added <= u32::MAX && !params.active(
            match tree {
                NoteCommitmentTree::Sapling => NetworkUpgrade::Sapling,
                NoteCommitmentTree::Orchard => NetworkUpgrade::Nu5,
                NoteCommitmentTree::Ironwood => NetworkUpgrade::Nu6_3,
            },
            block.height,
        ),
    }
}

/// After the first transactions of a block, their outputs have been passed over.
proof fn lemma_positions_after(
    ctx: ScanContext,
    start: PositionTracker,
    txs: Seq<CompactTx>,
    found: Seq<FoundView>,
    n: int,
)
    requires
        0 <= n <= txs.len(),
        start.before(txs),
    ensures
        after_txs(ctx, start, txs.take(n), found) matches Ok(st) ==> forall|tree: NoteCommitmentTree|
            #[trigger] st.tracker.position(tree) == start.position(tree) + tree.outputs_of(
                txs.take(n),
            ),
    decreases n,
{
    let s = NoteCommitmentTree::Sapling;
    let o = NoteCommitmentTree::Orchard;
    let i = NoteCommitmentTree::Ironwood;
    let first = txs.take(n);
    if n > 0 {
        assert(first.drop_last() =~= txs.take(n - 1));
        lemma_positions_after(ctx, start, txs, found, n - 1);
        if let Ok(st) = after_txs(ctx, start, txs.take(n - 1), found) {
            s.lemma_outputs_of_take(txs, n);
            o.lemma_outputs_of_take(txs, n);
            i.lemma_outputs_of_take(txs, n);
            assert(start.position(s) + s.outputs_of(txs) == start.final_size(s));
            assert(start.position(o) + o.outputs_of(txs) == start.final_size(o));
            assert(start.position(i) + i.outputs_of(txs) == start.final_size(i));
            assert(st.tracker.position(s) == start.position(s) + s.outputs_of(txs.take(n - 1)));
            assert(st.tracker.position(o) == start.position(o) + o.outputs_of(txs.take(n - 1)));
            assert(st.tracker.position(i) == start.position(i) + i.outputs_of(txs.take(n - 1)));
        }
    } else {
        assert(first =~= Seq::empty());
    }
}

/// Whether what was found in an output is what the first key that finds a note in it finds.
pub open spec fn found_first<N>(found: Option<(N, int)>, decryptions: Seq<Option<N>>) -> bool {
    match found {
        Some((note, k)) => {
            &&& 0 <= k < decryptions.len()
            &&& decryptions[k] == Some(note)
            &&& forall|j: int| 0 <= j < k ==> #[trigger] decryptions[j] is None
        },
        None => forall|j: int| 0 <= j < decryptions.len() ==> #[trigger] decryptions[j] is None,
    }
}

/// Whether what was found in a transaction is what the first key that finds a note in each of its
/// outputs finds.
pub open spec fn tx_searched(
    tx: CompactTx,
    zip212: Zip212Enforcement,
    keys: ScanningKeys,
    found: FoundView,
) -> bool {
    &&& forall|i: int|
        0 <= i < tx.outputs@.len() ==> found_first(
            #[trigger] found.sapling[i],
            keys.sapling_seq().map_values(
                |key: SaplingKey|
                    sapling_decryption(
                        key.dfvk@,
                        key.scope is Internal,
                        zip212,
                        tx.outputs@[i].ephemeral_key@,
                        tx.outputs@[i].cmu@,
                        tx.outputs@[i].ciphertext@,
                    ),
            ),
        )
    &&& forall|i: int|
        0 <= i < tx.actions@.len() ==> found_first(
            #[trigger] found.orchard[i],
            keys.orchard_seq().map_values(
                |key: OrchardKey|
                    orchard_decryption(
                        key.fvk@,
                        key.scope is Internal,
                        tx.actions@[i].nullifier@,
                        tx.actions@[i].cmx@,
                        tx.actions@[i].ephemeral_key@,
                        tx.actions@[i].ciphertext@,
                    ),
            ),
        )
    &&& forall|i: int|
        0 <= i < tx.ironwood_actions@.len() ==> found_first(
            #[trigger] found.ironwood[i],
            keys.orchard_seq().map_values(
                |key: OrchardKey|
                    ironwood_decryption(
                        key.fvk@,
                        key.scope is Internal,
                        tx.ironwood_actions@[i].nullifier@,
                        tx.ironwood_actions@[i].cmx@,
                        tx.ironwood_actions@[i].ephemeral_key@,
                        tx.ironwood_actions@[i].ciphertext@,
                    ),
            ),
        )
}

/// The first key that finds a note in an output is the first that does.
proof fn lemma_first_found<P: ShieldedPool>(keys: Seq<P::Key>, output: <P::Output as View>::V)
    ensures
        match first_match::<P>(keys, output) {
            Some((note, k)) => {
                &&& 0 <= k < keys.len()
                &&& P::finds(keys[k], output) == Some(note)
                &&& forall|j: int| 0 <= j < k ==> P::finds(#[trigger] keys[j], output) is None
            },
            None => forall|j: int|
                0 <= j < keys.len() ==> P::finds(#[trigger] keys[j], output) is None,
        },
    decreases keys.len(),
{
    if keys.len() > 0 {
        let first = keys.drop_last();
        lemma_first_found::<P>(first, output);
        assert forall|j: int| 0 <= j < first.len() implies #[trigger] keys[j] == first[j] by {}
        match first_match::<P>(first, output) {
            Some((note, k)) => {
                assert(keys[k] == first[k]);
            },
            None => {},
        }
    }
}

/// What the keys find in a transaction is what the first of them that finds a note finds.
proof fn lemma_tx_searched(ctx: ScanContext, keys: ScanningKeys, tx: CompactTx)
    requires
        ctx.sapling_keys == keys.sapling_seq(),
        ctx.orchard_keys == keys.orchard_seq(),
    ensures
        tx_searched(tx, ctx.zip212, keys, ctx.finds_in(tx)),
{
    let outputs = output_parts(tx.outputs@, ctx.zip212);
    let actions = action_parts(tx.actions@);
    let ironwood = action_parts(tx.ironwood_actions@);
    let found = ctx.finds_in(tx);
    assert forall|i: int| 0 <= i < tx.outputs@.len() implies #[trigger] found.sapling[i]
        == first_match::<SaplingPool>(ctx.sapling_keys, outputs[i]) by {}
    assert forall|i: int| 0 <= i < tx.outputs@.len() implies found_first(
        #[trigger] found.sapling[i],
        keys.sapling_seq().map_values(
            |key: SaplingKey|
                sapling_decryption(
                    key.dfvk@,
                    key.scope is Internal,
                    ctx.zip212,
                    tx.outputs@[i].ephemeral_key@,
                    tx.outputs@[i].cmu@,
                    tx.outputs@[i].ciphertext@,
                ),
        ),
    ) by {
        lemma_first_found::<SaplingPool>(ctx.sapling_keys, outputs[i]);
        assert forall|j: int| 0 <= j < ctx.sapling_keys.len() implies SaplingPool::finds(
            #[trigger] ctx.sapling_keys[j],
            outputs[i],
        ) == sapling_decryption(
            ctx.sapling_keys[j].dfvk@,
            ctx.sapling_keys[j].scope is Internal,
            ctx.zip212,
            tx.outputs@[i].ephemeral_key@,
            tx.outputs@[i].cmu@,
            tx.outputs@[i].ciphertext@,
        ) by {}
    }
    assert forall|i: int| 0 <= i < tx.actions@.len() implies found_first(
        #[trigger] found.orchard[i],
        keys.orchard_seq().map_values(
            |key: OrchardKey|
                orchard_decryption(
                    key.fvk@,
                    key.scope is Internal,
                    tx.actions@[i].nullifier@,
                    tx.actions@[i].cmx@,
                    tx.actions@[i].ephemeral_key@,
                    tx.actions@[i].ciphertext@,
                ),
        ),
    ) by {
        lemma_first_found::<OrchardPool>(ctx.orchard_keys, actions[i]);
    }
    assert forall|i: int| 0 <= i < tx.ironwood_actions@.len() implies found_first(
        #[trigger] found.ironwood[i],
        keys.orchard_seq().map_values(
            |key: OrchardKey|
                ironwood_decryption(
                    key.fvk@,
                    key.scope is Internal,
                    tx.ironwood_actions@[i].nullifier@,
                    tx.ironwood_actions@[i].cmx@,
                    tx.ironwood_actions@[i].ephemeral_key@,
                    tx.ironwood_actions@[i].ciphertext@,
                ),
        ),
    ) by {
        lemma_first_found::<IronwoodPool>(ctx.orchard_keys, ironwood[i]);
    }
}

/// Whether what is told of a block is what scanning has come to.
pub open spec fn comes_to(scanned: ScannedBlock, st: ScanState) -> bool {
    &&& views(scanned.transactions@) == st.transactions
    &&& views(scanned.sapling.commitments@) == st.sapling.commitments
    &&& views(scanned.orchard.commitments@) == st.orchard.commitments
    &&& views(scanned.ironwood.commitments@) == st.ironwood.commitments
    &&& views(scanned.sapling.nullifier_map@) == st.sapling.nullifier_map
    &&& views(scanned.orchard.nullifier_map@) == st.orchard.nullifier_map
    &&& views(scanned.ironwood.nullifier_map@) == st.ironwood.nullifier_map
    &&& scanned.sapling.final_tree_size == st.tracker.sapling_tree_position
    &&& scanned.orchard.final_tree_size == st.tracker.orchard_tree_position
    &&& scanned.ironwood.final_tree_size == st.tracker.ironwood_tree_position
}

/// Scanning a block with keys tells of it as it is: under its height, hash and time, with the notes
/// that the keys find, each found by the first key that finds it. It follows on the block before,
/// and a block that is refused is refused for a true reason.
pub proof fn lemma_scan_block(
    params: Params,
    block: CompactBlock,
    keys: ScanningKeys,
    nullifiers: Nullifiers,
    prior: Option<&BlockMetadata>,
    r: Result<ScannedBlock, ScanError>,
)
    requires
        forall|t: int| 0 <= t < block.vtx@.len() ==> actions_countable(#[trigger] block.vtx@[t]),
        call_ensures(scan_block, (&params, &block, &keys, &nullifiers, prior), r),
    ensures
        match r {
            Ok(scanned) => {
                &&& scanned.block_height == block.height
                &&& scanned.block_hash == block.hash
                &&& scanned.block_time == block.time
                &&& prior matches Some(m) ==> {
                    &&& block.height == m.block_height + 1 || m.block_height == u32::MAX
                    &&& block.prev_hash@ == m.block_hash@
                }
                &&& all_change_told(scanned.transactions@)
                &&& exists|st: ScanState, places: Seq<int>, found: Seq<FoundView>, start: PositionTracker| {
                    &&& #[trigger] state_told(
                        st,
                        places,
                        block.vtx@,
                        ScanContext {
                            height: block.height,
                            zip212: params.zip212_rule(block.height),
                            sapling_keys: keys.sapling_seq(),
                            orchard_keys: keys.orchard_seq(),
                            sapling_nfs: views(nullifiers.sapling@),
                            orchard_nfs: views(nullifiers.orchard@),
                        },
                        found,
                        start,
                    )
                    &&& starts_at(start, block, given(prior))
                    &&& comes_to(scanned, st)
                    &&& forall|t: int|
                        0 <= t < block.vtx@.len() ==> tx_searched(
                            #[trigger] block.vtx@[t],
                            params.zip212_rule(block.height),
                            keys,
                            found[t],
                        )
                }
            },
            Err(e) => error_true(e, params, block, given(prior)),
        },
{
    let ctx = context_of(params, block, keys, nullifiers);
    let found = ctx.finds_in_all(block.vtx@);
    let outcome = scan_outcome(params, block, keys, nullifiers, given(prior), found);
    lemma_refusals_true(params, block, keys, nullifiers, given(prior), found);
    if let Ok(scanned) = r {
        let st = outcome->Ok_0;
        lemma_block_told(params, block, keys, nullifiers, given(prior), found);
        let (places, start) = choose|places: Seq<int>, start: PositionTracker| #[trigger]
            state_told(st, places, block.vtx@, ctx, found, start) && starts_at(
                start,
                block,
                given(prior),
            );
        assert(state_told(st, places, block.vtx@, ctx, found, start));
        assert forall|t: int| 0 <= t < block.vtx@.len() implies tx_searched(
            #[trigger] block.vtx@[t],
            ctx.zip212,
            keys,
            found[t],
        ) by {
            lemma_tx_searched(ctx, keys, block.vtx@[t]);
        }
        assert(comes_to(scanned, st));
    }
}

/// Whether the sizes of a tree around a block are told as they are known: the size before it is that of
/// the block before, or follows from what the block claims, or is zero where the pool has not come into
/// being, and the block adds as many as it has outputs.
pub open spec fn sizes_told(
    start: int,
    end: int,
    tree: NoteCommitmentTree,
    params: Params,
    block: CompactBlock,
    prior: Option<BlockMetadata>,
) -> bool {
    let added = tree.outputs_of(block.vtx@);
    &&& end == start + added
    &&& match (known_size(tree, prior), claimed(tree, block)) {
        (Some(before), _) => start == before,
        (None, Some(after)) => end == after,
        (None, None) => start == 0 && !params.active(
            match tree {
                NoteCommitmentTree::Sapling => NetworkUpgrade::Sapling,
                NoteCommitmentTree::Orchard => NetworkUpgrade::Nu5,
                NoteCommitmentTree::Ironwood => NetworkUpgrade::Nu6_3,
            },
            block.height,
        ),
    }
}

/// A tracker for a block starts where each tree stands before the block and ends where it stands after
/// it; where that cannot be told, the reason is true.
pub proof fn lemma_tracker_for_block(
    params: Params,
    block: CompactBlock,
    prior: Option<&BlockMetadata>,
    r: Result<PositionTracker, ScanError>,
)
    requires
        call_ensures(PositionTracker::for_compact_block, (&params, &block, prior), r),
    ensures
        match r {
            Ok(tracker) => {
                &&& sizes_told(
                    tracker.sapling_tree_position as int,
                    tracker.sapling_final_tree_size as int,
                    NoteCommitmentTree::Sapling,
                    params,
                    block,
                    given(prior),
                )
                &&& sizes_told(
                    tracker.orchard_tree_position as int,
                    tracker.orchard_final_tree_size as int,
                    NoteCommitmentTree::Orchard,
                    params,
                    block,
                    given(prior),
                )
                &&& sizes_told(
                    tracker.ironwood_tree_position as int,
                    tracker.ironwood_final_tree_size as int,
                    NoteCommitmentTree::Ironwood,
                    params,
                    block,
                    given(prior),
                )
            },
            Err(e) => error_true(e, params, block, given(prior)),
        },
{
    lemma_sizes_around(NoteCommitmentTree::Sapling, params, block, given(prior));
    lemma_sizes_around(NoteCommitmentTree::Orchard, params, block, given(prior));
    lemma_sizes_around(NoteCommitmentTree::Ironwood, params, block, given(prior));
}

/// At the end of a block, the sizes that it claims are accepted just if they are those that its outputs
/// lead to; the first one that is not is reported with both.
pub proof fn lemma_end_of_block(
    tracker: PositionTracker,
    at_height: BlockHeight,
    m: ChainMetadata,
    none: Result<(), ScanError>,
    r: Result<(), ScanError>,
)
    requires
        call_ensures(
            PositionTracker::check_end_of_compact_block_consistency,
            (&tracker, at_height, None),
            none,
        ),
        call_ensures(
            PositionTracker::check_end_of_compact_block_consistency,
            (&tracker, at_height, Some(m)),
            r,
        ),
    ensures
        none is Ok,
        r is Ok <==> m.sapling_commitment_tree_size == tracker.sapling_tree_position
            && m.orchard_commitment_tree_size == tracker.orchard_tree_position
            && m.ironwood_commitment_tree_size == tracker.ironwood_tree_position,
        r matches Err(e) ==> (e matches ScanError::TreeSizeMismatch {
            tree,
            at_height: h,
            given: claimed_size,
            computed,
        } && h == at_height && claimed_size != computed && match tree {
            NoteCommitmentTree::Sapling => claimed_size == m.sapling_commitment_tree_size
                && computed == tracker.sapling_tree_position,
            NoteCommitmentTree::Orchard => claimed_size == m.orchard_commitment_tree_size
                && computed == tracker.orchard_tree_position && m.sapling_commitment_tree_size
                == tracker.sapling_tree_position,
            NoteCommitmentTree::Ironwood => claimed_size == m.ironwood_commitment_tree_size
                && computed == tracker.ironwood_tree_position && m.sapling_commitment_tree_size
                == tracker.sapling_tree_position && m.orchard_commitment_tree_size
                == tracker.orchard_tree_position,
        }),
{
}

/// A transaction holds the last outputs of a block in a pool just if its outputs there reach the size
/// of the tree after the block.
pub proof fn lemma_last_in_block(
    tracker: PositionTracker,
    at_height: BlockHeight,
    tx: CompactTx,
    sapling: Result<bool, ScanError>,
    orchard: Result<bool, ScanError>,
    ironwood: Result<bool, ScanError>,
)
    requires
        call_ensures(
            PositionTracker::compact_tx_contains_last_sapling_outputs_in_block,
            (&tracker, at_height, &tx),
            sapling,
        ),
        call_ensures(
            PositionTracker::compact_tx_contains_last_orchard_actions_in_block,
            (&tracker, at_height, &tx),
            orchard,
        ),
        call_ensures(
            PositionTracker::compact_tx_contains_last_ironwood_actions_in_block,
            (&tracker, at_height, &tx),
            ironwood,
        ),
    ensures
        sapling matches Ok(last) ==> (last <==> tracker.sapling_tree_position + tx.outputs@.len()
            == tracker.sapling_final_tree_size),
        orchard matches Ok(last) ==> (last <==> tracker.orchard_tree_position + tx.actions@.len()
            == tracker.orchard_final_tree_size),
        ironwood matches Ok(last) ==> (last <==> tracker.ironwood_tree_position
            + tx.ironwood_actions@.len() == tracker.ironwood_final_tree_size),
        sapling is Err <==> tracker.sapling_tree_position + tx.outputs@.len() > u32::MAX,
        orchard is Err <==> tracker.orchard_tree_position + tx.actions@.len() > u32::MAX,
        ironwood is Err <==> tracker.ironwood_tree_position + tx.ironwood_actions@.len() > u32::MAX,
{
}

/// Outputs of transactions are refused just if one of them is not encoded as it should be, and the error
/// says which; the nullifiers of Sapling spends are not looked at.
pub proof fn lemma_outputs_refused(at_height: BlockHeight, txs: Seq<CompactTx>)
    ensures
        match first_reading_error(at_height, txs) {
            None => forall|t: int|
                0 <= t < txs.len() ==> {
                    &&& forall|i: int|
                        0 <= i < (#[trigger] txs[t]).outputs@.len() ==> output_readable(
                            #[trigger] txs[t].outputs@[i],
                        )
                    &&& forall|i: int|
                        0 <= i < txs[t].actions@.len() ==> action_readable(
                            #[trigger] txs[t].actions@[i],
                        )
                    &&& forall|i: int|
                        0 <= i < txs[t].ironwood_actions@.len() ==> action_readable(
                            #[trigger] txs[t].ironwood_actions@[i],
                        )
                },
            Some(e) => e matches ScanError::EncodingInvalid { at_height: h, txid, tree, index } && h
                == at_height && exists|t: int|
                {
                    &&& 0 <= t < txs.len()
                    &&& (#[trigger] txs[t]).txid == txid
                    &&& item_unreadable(tree, txs[t], index as int)
                },
        },
    decreases txs.len(),
{
    if txs.len() > 0 {
        let first = txs.drop_last();
        let tx = txs.last();
        lemma_outputs_refused(at_height, first);
        assert(txs[txs.len() - 1] == tx);
        match first_reading_error(at_height, first) {
            Some(e) => {
                if let ScanError::EncodingInvalid { at_height: h, txid, tree, index } = e {
                    let t = choose|t: int|
                        {
                            &&& 0 <= t < first.len()
                            &&& (#[trigger] first[t]).txid == txid
                            &&& item_unreadable(tree, first[t], index as int)
                        };
                    assert(txs[t] == first[t]);
                }
            },
            None => {
                assert(tx.outputs.len() == tx.outputs@.len());
                assert(tx.actions.len() == tx.actions@.len());
                assert(tx.ironwood_actions.len() == tx.ironwood_actions@.len());
                lemma_first_unmet_is(outputs_valid(tx.outputs@));
                lemma_first_unmet_is(actions_valid(tx.actions@));
                lemma_first_unmet_is(actions_valid(tx.ironwood_actions@));
                if reading_error(at_height, tx) is None {
                    lemma_none_unmet(outputs_valid(tx.outputs@));
                    lemma_none_unmet(actions_valid(tx.actions@));
                    lemma_none_unmet(actions_valid(tx.ironwood_actions@));
                    assert forall|i: int| 0 <= i < tx.outputs@.len() implies output_readable(
                        #[trigger] tx.outputs@[i],
                    ) by {
                        assert(outputs_valid(tx.outputs@)[i]);
                    }
                    assert forall|i: int| 0 <= i < tx.actions@.len() implies action_readable(
                        #[trigger] tx.actions@[i],
                    ) by {
                        assert(actions_valid(tx.actions@)[i]);
                    }
                    assert forall|i: int| 0 <= i < tx.ironwood_actions@.len() implies action_readable(
                        #[trigger] tx.ironwood_actions@[i],
                    ) by {
                        assert(actions_valid(tx.ironwood_actions@)[i]);
                    }
                    assert forall|t: int| 0 <= t < txs.len() implies {
                        &&& forall|i: int|
                            0 <= i < (#[trigger] txs[t]).outputs@.len() ==> output_readable(
                                #[trigger] txs[t].outputs@[i],
                            )
                        &&& forall|i: int|
                            0 <= i < txs[t].actions@.len() ==> action_readable(
                                #[trigger] txs[t].actions@[i],
                            )
                        &&& forall|i: int|
                            0 <= i < txs[t].ironwood_actions@.len() ==> action_readable(
                                #[trigger] txs[t].ironwood_actions@[i],
                            )
                    } by {
                        if t < first.len() {
                            assert(first[t] == txs[t]);
                        }
                    }
                }
            },
        }
    }
}

/// Whether a Sapling key of an account is among some keys for a scope.
pub open spec fn has_sapling_key(
    keys: Seq<SaplingKey>,
    account: AccountId,
    scope: Scope,
    dfvk: [u8; 128],
) -> bool {
    exists|k: int|
        0 <= k < keys.len() && (#[trigger] keys[k]) == (SaplingKey { account, scope, dfvk })
}

/// Whether an Orchard key of an account is among some keys for a scope.
pub open spec fn has_orchard_key(
    keys: Seq<OrchardKey>,
    account: AccountId,
    scope: Scope,
    fvk: [u8; 96],
) -> bool {
    exists|k: int| 0 <= k < keys.len() && (#[trigger] keys[k]) == (OrchardKey { account, scope, fvk })
}

/// The keys that are made of those of accounts are exactly the keys that the accounts have, each for its
/// account and for both scopes.
pub proof fn lemma_keys_of_accounts(accounts: Vec<AccountKeys>, r: Option<ScanningKeys>)
    requires
        call_ensures(ScanningKeys::from_account_keys, (&accounts,), r),
        r is Some,
    ensures
        forall|i: int|
            0 <= i < accounts@.len() ==> {
                &&& (#[trigger] accounts@[i]).sapling matches Some(dfvk) ==> {
                    &&& has_sapling_key(
                        r->0.sapling_seq(),
                        accounts@[i].account,
                        Scope::External,
                        dfvk,
                    )
                    &&& has_sapling_key(
                        r->0.sapling_seq(),
                        accounts@[i].account,
                        Scope::Internal,
                        dfvk,
                    )
                }
                &&& accounts@[i].orchard matches Some(fvk) ==> {
                    &&& has_orchard_key(
                        r->0.orchard_seq(),
                        accounts@[i].account,
                        Scope::External,
                        fvk,
                    )
                    &&& has_orchard_key(
                        r->0.orchard_seq(),
                        accounts@[i].account,
                        Scope::Internal,
                        fvk,
                    )
                }
            },
        forall|k: int|
            0 <= k < r->0.sapling_seq().len() ==> sapling_key_from(
                accounts@,
                #[trigger] r->0.sapling_seq()[k],
            ),
        forall|k: int|
            0 <= k < r->0.orchard_seq().len() ==> orchard_key_from(
                accounts@,
                #[trigger] r->0.orchard_seq()[k],
            ),
{
    lemma_account_keys(accounts@);
}

/// Whether a Sapling key is that of one of some accounts.
pub open spec fn sapling_key_from(accounts: Seq<AccountKeys>, key: SaplingKey) -> bool {
    exists|i: int|
        0 <= i < accounts.len() && (#[trigger] accounts[i]).account == key.account
            && accounts[i].sapling == Some(key.dfvk)
}

/// Whether an Orchard key is that of one of some accounts.
pub open spec fn orchard_key_from(accounts: Seq<AccountKeys>, key: OrchardKey) -> bool {
    exists|i: int|
        0 <= i < accounts.len() && (#[trigger] accounts[i]).account == key.account
            && accounts[i].orchard == Some(key.fvk)
}

/// The keys of accounts are those that the accounts have.
#[verifier::spinoff_prover]
#[verifier::rlimit(40)]
proof fn lemma_account_keys(accounts: Seq<AccountKeys>)
    ensures
        forall|i: int|
            0 <= i < accounts.len() ==> {
                &&& (#[trigger] accounts[i]).sapling matches Some(dfvk) ==> {
                    &&& has_sapling_key(
                        sapling_keys_of(accounts),
                        accounts[i].account,
                        Scope::External,
                        dfvk,
                    )
                    &&& has_sapling_key(
                        sapling_keys_of(accounts),
                        accounts[i].account,
                        Scope::Internal,
                        dfvk,
                    )
                }
                &&& accounts[i].orchard matches Some(fvk) ==> {
                    &&& has_orchard_key(
                        orchard_keys_of(accounts),
                        accounts[i].account,
                        Scope::External,
                        fvk,
                    )
                    &&& has_orchard_key(
                        orchard_keys_of(accounts),
                        accounts[i].account,
                        Scope::Internal,
                        fvk,
                    )
                }
            },
        forall|k: int|
            0 <= k < sapling_keys_of(accounts).len() ==> sapling_key_from(
                accounts,
                #[trigger] sapling_keys_of(accounts)[k],
            ),
        forall|k: int|
            0 <= k < orchard_keys_of(accounts).len() ==> orchard_key_from(
                accounts,
                #[trigger] orchard_keys_of(accounts)[k],
            ),
    decreases accounts.len(),
{
    if accounts.len() > 0 {
        let first = accounts.drop_last();
        let last = accounts.last();
        let s = sapling_keys_of(accounts);
        let o = orchard_keys_of(accounts);
        let s_before = sapling_keys_of(first);
        let o_before = orchard_keys_of(first);
        lemma_account_keys(first);
        assert(accounts[accounts.len() - 1] == last);
        assert forall|account: AccountId, scope: Scope, dfvk: [u8; 128]| #[trigger]
            has_sapling_key(s_before, account, scope, dfvk) implies has_sapling_key(
            s,
            account,
            scope,
            dfvk,
        ) by {
            let k = choose|k: int|
                0 <= k < s_before.len() && (#[trigger] s_before[k]) == (SaplingKey {
                    account,
                    scope,
                    dfvk,
                });
            assert(s[k] == s_before[k]);
        }
        assert forall|account: AccountId, scope: Scope, fvk: [u8; 96]| #[trigger]
            has_orchard_key(o_before, account, scope, fvk) implies has_orchard_key(
            o,
            account,
            scope,
            fvk,
        ) by {
            let k = choose|k: int|
                0 <= k < o_before.len() && (#[trigger] o_before[k]) == (OrchardKey {
                    account,
                    scope,
                    fvk,
                });
            assert(o[k] == o_before[k]);
        }
        if let Some(dfvk) = last.sapling {
            let n = s_before.len() as int;
            assert(s[n] == (SaplingKey { account: last.account, scope: Scope::External, dfvk }));
            assert(s[n + 1] == (SaplingKey { account: last.account, scope: Scope::Internal, dfvk }));
        }
        if let Some(fvk) = last.orchard {
            let n = o_before.len() as int;
            assert(o[n] == (OrchardKey { account: last.account, scope: Scope::External, fvk }));
            assert(o[n + 1] == (OrchardKey { account: last.account, scope: Scope::Internal, fvk }));
        }
        assert forall|k: int| 0 <= k < s.len() implies sapling_key_from(accounts, #[trigger] s[k]) by {
            if k < s_before.len() {
                assert(s[k] == s_before[k]);
                assert(sapling_key_from(first, s_before[k]));
                let i = choose|i: int|
                    0 <= i < first.len() && (#[trigger] first[i]).account == s_before[k].account
                        && first[i].sapling == Some(s_before[k].dfvk);
                assert(accounts[i] == first[i]);
            }
        }
        assert forall|k: int| 0 <= k < o.len() implies orchard_key_from(accounts, #[trigger] o[k]) by {
            if k < o_before.len() {
                assert(o[k] == o_before[k]);
                assert(orchard_key_from(first, o_before[k]));
                let i = choose|i: int|
                    0 <= i < first.len() && (#[trigger] first[i]).account == o_before[k].account
                        && first[i].orchard == Some(o_before[k].fvk);
                assert(accounts[i] == first[i]);
            }
        }
        assert forall|i: int| 0 <= i < first.len() implies #[trigger] accounts[i] == first[i] by {}
    }
}

/// What the runners found in outputs is given out once: a transaction whose identifier an earlier one of
/// the block has gets nothing, and so does one that nothing was handed over for. Else each output that
/// was handed over has what the first key finds that finds a note in it.
pub proof fn lemma_given_out_once(
    runners: BatchRunners,
    block_hash: Seq<u8>,
    txs: Seq<CompactTx>,
    t: int,
    u: int,
)
    requires
        0 <= t < txs.len(),
    ensures
        ({
            let found = runners_give_all(runners, block_hash, txs)[t];
            let txid = txs[t].txid@;
            let repeated = 0 <= u < t && txs[u].txid@ == txid;
            &&& found.sapling.len() == txs[t].outputs@.len()
            &&& found.orchard.len() == txs[t].actions@.len()
            &&& found.ironwood.len() == txs[t].ironwood_actions@.len()
            &&& repeated || runners.sapling.handed_over(block_hash, txid) is None ==> forall|i: int|
                0 <= i < found.sapling.len() ==> #[trigger] found.sapling[i] is None
            &&& repeated || runners.orchard.handed_over(block_hash, txid) is None ==> forall|i: int|
                0 <= i < found.orchard.len() ==> #[trigger] found.orchard[i] is None
            &&& repeated || runners.ironwood.handed_over(block_hash, txid) is None ==> forall|i: int|
                0 <= i < found.ironwood.len() ==> #[trigger] found.ironwood[i] is None
        }),
{
    if 0 <= u < t && txs[u].txid@ == txs[t].txid@ {
        assert(among_first(txs, t, txs[t].txid@));
    }
}

/// When a block has been scanned, the runners have forgotten all of its transactions, so that scanning it
/// again with them finds nothing. Where it was refused because it does not follow on the block before,
/// they hold what they held.
pub proof fn lemma_runners_forget(
    params: Params,
    block: CompactBlock,
    keys: ScanningKeys,
    nullifiers: Nullifiers,
    prior: Option<BlockMetadata>,
    found: Seq<FoundView>,
    before: BatchRunners,
    runners: BatchRunners,
    t: int,
)
    requires
        runners_after(runners, before, params, block, prior),
        0 <= t < block.vtx@.len(),
    ensures
        scan_outcome(params, block, keys, nullifiers, prior, found) is Ok ==> {
            &&& runners.sapling.handed_over(block.hash@, block.vtx@[t].txid@) is None
            &&& runners.orchard.handed_over(block.hash@, block.vtx@[t].txid@) is None
            &&& runners.ironwood.handed_over(block.hash@, block.vtx@[t].txid@) is None
        },
        prior is Some && prior->0.block_hash@ != block.prev_hash@ ==> forall|h: Seq<u8>, i: Seq<u8>|
            #![trigger runners.sapling.handed_over(h, i)]
            #![trigger runners.orchard.handed_over(h, i)]
            #![trigger runners.ironwood.handed_over(h, i)]
            {
                &&& runners.sapling.handed_over(h, i) == before.sapling.handed_over(h, i)
                &&& runners.orchard.handed_over(h, i) == before.orchard.handed_over(h, i)
                &&& runners.ironwood.handed_over(h, i) == before.ironwood.handed_over(h, i)
            },
{
    let ctx = context_of(params, block, keys, nullifiers);
    let txs = block.vtx@;
    let txid = txs[t].txid@;
    if scan_outcome(params, block, keys, nullifiers, prior, found) is Ok {
        let start = PositionTracker::at_start(params, block, prior)->Ok_0;
        lemma_txs_read(ctx, start, txs, found);
        assert(among_first(txs, txs.len() as int, txid)) by {
            assert(txs[t].txid@ == txid);
        }
        assert(runners.sapling.handed_over(block.hash@, txid) is None);
        assert(runners.orchard.handed_over(block.hash@, txid) is None);
        assert(runners.ironwood.handed_over(block.hash@, txid) is None);
    }
    if prior is Some && prior->0.block_hash@ != block.prev_hash@ {
        assert(continuity_error(block, prior) is Some);
        assert forall|i: Seq<u8>| !#[trigger] among_first(txs, 0, i) by {}
    }
}

/// Whether the outputs of a transaction in a pool, and those in the pools before it, are encoded as they
/// should be.
pub open spec fn outputs_encoded(tx: CompactTx, tree: NoteCommitmentTree) -> bool {
    &&& forall|i: int| 0 <= i < tx.outputs@.len() ==> output_readable(#[trigger] tx.outputs@[i])
    &&& !(tree is Sapling) ==> forall|i: int|
        0 <= i < tx.actions@.len() ==> action_readable(#[trigger] tx.actions@[i])
    &&& tree is Ironwood ==> forall|i: int|
        0 <= i < tx.ironwood_actions@.len() ==> action_readable(#[trigger] tx.ironwood_actions@[i])
}

/// Whether the nullifiers that a transaction reveals are encoded as they should be.
pub open spec fn nullifiers_encoded(tx: CompactTx) -> bool {
    &&& forall|i: int| 0 <= i < tx.spends@.len() ==> (#[trigger] tx.spends@[i]).nf@.len() == 32
    &&& forall|i: int|
        0 <= i < tx.actions@.len() ==> pallas_base_canonical(
            (#[trigger] tx.actions@[i]).nullifier@,
        )
    &&& forall|i: int|
        0 <= i < tx.ironwood_actions@.len() ==> pallas_base_canonical(
            (#[trigger] tx.ironwood_actions@[i]).nullifier@,
        )
}

/// Items have none that cannot be read just if all of them can be.
proof fn lemma_all_or_first(met: Seq<bool>)
    ensures
        first_unmet(met) is None <==> forall|i: int| 0 <= i < met.len() ==> #[trigger] met[i],
    decreases met.len(),
{
    if met.len() > 0 {
        let first = met.drop_last();
        lemma_all_or_first(first);
        if first_unmet(met) is None {
            lemma_none_unmet(met);
        }
        if forall|i: int| 0 <= i < met.len() ==> #[trigger] met[i] {
            assert forall|i: int| 0 <= i < first.len() implies #[trigger] first[i] by {
                assert(met[i]);
            }
            assert(met[met.len() - 1]);
        }
    }
}

/// Which outputs and nullifiers of a transaction can be read.
proof fn lemma_items_encoded(tx: CompactTx, tree: NoteCommitmentTree)
    ensures
        outputs_readable(tx, tree) <==> outputs_encoded(tx, tree),
        outputs_reached(tx, tree) <==> nullifiers_encoded(tx) && outputs_encoded(tx, tree),
{
    let spends = spend_nfs_valid(tx.spends@);
    let outputs = outputs_valid(tx.outputs@);
    let actions = actions_valid(tx.actions@);
    let ironwood = actions_valid(tx.ironwood_actions@);
    let action_nullifiers = action_nfs_valid(tx.actions@);
    let ironwood_nullifiers = action_nfs_valid(tx.ironwood_actions@);
    lemma_all_or_first(spends);
    lemma_all_or_first(outputs);
    lemma_all_or_first(actions);
    lemma_all_or_first(ironwood);
    lemma_all_or_first(action_nullifiers);
    lemma_all_or_first(ironwood_nullifiers);
    assert forall|i: int| 0 <= i < tx.spends@.len() implies #[trigger] spends[i] == (
    tx.spends@[i].nf@.len() == 32) by {}
    assert forall|i: int| 0 <= i < tx.outputs@.len() implies #[trigger] outputs[i]
        == output_readable(tx.outputs@[i]) by {}
    assert forall|i: int| 0 <= i < tx.actions@.len() implies #[trigger] actions[i]
        == action_readable(tx.actions@[i]) by {}
    assert forall|i: int| 0 <= i < tx.ironwood_actions@.len() implies #[trigger] ironwood[i]
        == action_readable(tx.ironwood_actions@[i]) by {}
    assert forall|i: int| 0 <= i < tx.actions@.len() implies #[trigger] action_nullifiers[i]
        == pallas_base_canonical(tx.actions@[i].nullifier@) by {}
    assert forall|i: int| 0 <= i < tx.ironwood_actions@.len() implies #[trigger] ironwood_nullifiers[i]
        == pallas_base_canonical(tx.ironwood_actions@[i].nullifier@) by {}
    assert((first_unmet(spends) is None) == forall|i: int|
        0 <= i < tx.spends@.len() ==> (#[trigger] tx.spends@[i]).nf@.len() == 32) by {
        if forall|i: int| 0 <= i < spends.len() ==> #[trigger] spends[i] {
            assert forall|i: int| 0 <= i < tx.spends@.len() implies (
            #[trigger] tx.spends@[i]).nf@.len() == 32 by {
                assert(spends[i]);
            }
        }
    }
    assert((first_unmet(outputs) is None) == forall|i: int|
        0 <= i < tx.outputs@.len() ==> output_readable(#[trigger] tx.outputs@[i])) by {
        if forall|i: int| 0 <= i < outputs.len() ==> #[trigger] outputs[i] {
            assert forall|i: int| 0 <= i < tx.outputs@.len() implies output_readable(
                #[trigger] tx.outputs@[i],
            ) by {
                assert(outputs[i]);
            }
        }
    }
    assert((first_unmet(actions) is None) == forall|i: int|
        0 <= i < tx.actions@.len() ==> action_readable(#[trigger] tx.actions@[i])) by {
        if forall|i: int| 0 <= i < actions.len() ==> #[trigger] actions[i] {
            assert forall|i: int| 0 <= i < tx.actions@.len() implies action_readable(
                #[trigger] tx.actions@[i],
            ) by {
                assert(actions[i]);
            }
        }
    }
    assert((first_unmet(ironwood) is None) == forall|i: int|
        0 <= i < tx.ironwood_actions@.len() ==> action_readable(
            #[trigger] tx.ironwood_actions@[i],
        )) by {
        if forall|i: int| 0 <= i < ironwood.len() ==> #[trigger] ironwood[i] {
            assert forall|i: int| 0 <= i < tx.ironwood_actions@.len() implies action_readable(
                #[trigger] tx.ironwood_actions@[i],
            ) by {
                assert(ironwood[i]);
            }
        }
    }
    assert((first_unmet(action_nullifiers) is None) == forall|i: int|
        0 <= i < tx.actions@.len() ==> pallas_base_canonical(
            (#[trigger] tx.actions@[i]).nullifier@,
        )) by {
        if forall|i: int| 0 <= i < action_nullifiers.len() ==> #[trigger] action_nullifiers[i] {
            assert forall|i: int| 0 <= i < tx.actions@.len() implies pallas_base_canonical(
                (#[trigger] tx.actions@[i]).nullifier@,
            ) by {
                assert(action_nullifiers[i]);
            }
        }
    }
    assert((first_unmet(ironwood_nullifiers) is None) == forall|i: int|
        0 <= i < tx.ironwood_actions@.len() ==> pallas_base_canonical(
            (#[trigger] tx.ironwood_actions@[i]).nullifier@,
        )) by {
        if forall|i: int| 0 <= i < ironwood_nullifiers.len() ==> #[trigger] ironwood_nullifiers[i] {
            assert forall|i: int| 0 <= i < tx.ironwood_actions@.len() implies pallas_base_canonical(
                (#[trigger] tx.ironwood_actions@[i]).nullifier@,
            ) by {
                assert(ironwood_nullifiers[i]);
            }
        }
    }
}

/// Those transactions come before the first one with outputs that cannot be read that have none, and
/// that have no earlier one with such.
proof fn lemma_txs_before_error(at_height: BlockHeight, txs: Seq<CompactTx>)
    ensures
        txs_readable(at_height, txs) <= txs.len(),
        forall|t: int|
            0 <= t < txs_readable(at_height, txs) ==> outputs_encoded(
                #[trigger] txs[t],
                NoteCommitmentTree::Ironwood,
            ),
        txs_readable(at_height, txs) < txs.len() ==> !outputs_encoded(
            txs[txs_readable(at_height, txs) as int],
            NoteCommitmentTree::Ironwood,
        ),
    decreases txs.len(),
{
    if txs.len() > 0 {
        let first = txs.drop_last();
        lemma_txs_before_error(at_height, first);
        lemma_items_encoded(txs.last(), NoteCommitmentTree::Ironwood);
        assert(txs[txs.len() - 1] == txs.last());
        assert forall|t: int| 0 <= t < txs_readable(at_height, txs) implies outputs_encoded(
            #[trigger] txs[t],
            NoteCommitmentTree::Ironwood,
        ) by {
            if t < first.len() {
                assert(first[t] == txs[t]);
            }
        }
    }
}

/// Of a block that is handed over, the outputs in a pool are handed over of exactly those transactions
/// before which all outputs can be read and of which those in the pool and in the pools before it can.
pub proof fn lemma_outputs_handed_over(
    at_height: BlockHeight,
    txs: Seq<CompactTx>,
    tree: NoteCommitmentTree,
    t: int,
)
    requires
        0 <= t < txs.len(),
    ensures
        t < readable_in(at_height, txs, tree).len() <==> outputs_encoded(txs[t], tree) && forall|u: int|
            0 <= u < t ==> outputs_encoded(#[trigger] txs[u], NoteCommitmentTree::Ironwood),
        t < readable_in(at_height, txs, tree).len() ==> readable_in(at_height, txs, tree)[t]
            == txs[t],
{
    lemma_txs_before_error(at_height, txs);
    let n = txs_readable(at_height, txs) as int;
    lemma_items_encoded(txs[t], tree);
    if n < txs.len() {
        lemma_items_encoded(txs[n], tree);
        if t > n {
            assert(!outputs_encoded(txs[n], NoteCommitmentTree::Ironwood));
        }
    }
    if t < n {
        assert(outputs_encoded(txs[t], NoteCommitmentTree::Ironwood));
    }
}

/// Of a block that is scanned, the outputs in a pool are reached of exactly those transactions before
/// which all items can be read, of which all nullifiers can be read, and of which the outputs in the pool
/// and in the pools before it can.
pub proof fn lemma_outputs_are_reached(
    ctx: ScanContext,
    tracker: PositionTracker,
    txs: Seq<CompactTx>,
    found: Seq<FoundView>,
    tree: NoteCommitmentTree,
    t: int,
)
    requires
        0 <= t < txs.len(),
    ensures
        t < txs_reached(ctx.height, txs, tree) <==> nullifiers_encoded(txs[t]) && outputs_encoded(
            txs[t],
            tree,
        ) && forall|u: int| 0 <= u < t ==> tx_readable(#[trigger] txs[u]),
{
    lemma_txs_read(ctx, tracker, txs, found);
    lemma_first_unread(ctx.height, txs);
    let n = txs_read(ctx.height, txs) as int;
    lemma_items_encoded(txs[t], tree);
    assert forall|u: int| 0 <= u < n implies tx_readable(#[trigger] txs[u]) by {
        lemma_tx_error(ctx.height, txs[u]);
    }
    if t < n {
        assert(tx_readable(txs[t]));
    }
    if n < txs.len() {
        lemma_items_encoded(txs[n], tree);
        lemma_readable_parts(ctx.height, txs[n]);
    }
}

/// The first transaction that is not read cannot be.
proof fn lemma_first_unread(at_height: BlockHeight, txs: Seq<CompactTx>)
    ensures
        txs_read(at_height, txs) <= txs.len(),
        txs_read(at_height, txs) < txs.len() ==> tx_error(
            at_height,
            txs[txs_read(at_height, txs) as int],
        ) is Some,
    decreases txs.len(),
{
    if txs.len() > 0 {
        lemma_first_unread(at_height, txs.drop_last());
    }
}

/// A transaction that is refused has an item that is not encoded as it should be.
proof fn lemma_readable_parts(at_height: BlockHeight, tx: CompactTx)
    ensures
        tx_error(at_height, tx) is None <==> tx_readable(tx),
{
    lemma_tx_error(at_height, tx);
    if let Some(e) = tx_error(at_height, tx) {
        if let ScanError::EncodingInvalid { at_height: h, txid, tree, index } = e {
            assert(item_unreadable(tree, tx, index as int));
        }
    }
}

} // verus!
