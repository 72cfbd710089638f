//! What a block holds for a wallet: the notes that it spends and the notes that it receives.

use vstd::prelude::*;

use crate::consensus::BlockHeight;
use crate::consensus::Params;
use crate::consensus::Zip212Enforcement;

use super::batch::as_matches;
use super::batch::last_under;
use super::batch::matches_of;
use super::batch::reading_error;
use super::batch::same_bytes;
use super::batch::BatchRunner;
use super::batch::BatchRunners;
use super::compact::action_nfs;
use super::compact::action_nfs_valid;
use super::compact::action_parts;
use super::compact::actions_valid;
use super::compact::first_unmet;
use super::compact::invalid_compact_encoding;
use super::compact::lemma_none_unmet;
use super::compact::output_parts;
use super::compact::outputs_valid;
use super::compact::read_action_nfs;
use super::compact::read_actions;
use super::compact::read_outputs;
use super::compact::read_spend_nfs;
use super::compact::spend_nfs;
use super::compact::spend_nfs_valid;
use super::compact::views;
use super::compact::CompactBlock;
use super::compact::CompactTx;
use super::laws::all_change_told;
use super::laws::lemma_change_by_spends;
use super::pools::as_match;
use super::pools::first_match;
use super::pools::lemma_first_match_index;
use super::pools::optional_bytes;
use super::pools::try_decrypt;
use super::pools::AccountId;
use super::pools::IronwoodPool;
use super::pools::OrchardKey;
use super::pools::OrchardNote;
use super::pools::OrchardPool;
use super::pools::SaplingKey;
use super::pools::SaplingNote;
use super::pools::SaplingPool;
use super::pools::ScanningKeys;
use super::pools::Scope;
use super::pools::ShieldedPool;
use super::position::given;
use super::position::lemma_start_is_before;
use super::position::lemma_tracker_advances;
use super::position::PositionTracker;
use super::BlockMetadata;
use super::NoteCommitmentTree;
use super::ScanError;

verus! {

/// Whether the note behind a checkpoint's commitment is of interest.
#[derive(Clone, Copy, Debug, PartialEq, Eq, Structural)]
pub enum Marking {
    Marked,
    Unmarked,
}

/// Why a note commitment is kept in its tree.
#[derive(Clone, Copy, Debug, PartialEq, Eq, Structural)]
pub enum Retention {
    /// It is not kept any longer than needed.
    Ephemeral,
    /// It is the last of its block, to which the tree can be taken back.
    Checkpoint { id: BlockHeight, marking: Marking },
    /// It is that of a note of the wallet.
    Marked,
}

/// The commitment to a note, and why it is kept.
#[derive(Clone, Copy, Debug, PartialEq, Eq)]
pub struct Commitment {
    pub node: [u8; 32],
    pub retention: Retention,
}

/// The nullifiers that a transaction reveals and that belong to no note that the wallet knows.
#[derive(Debug, PartialEq, Eq)]
pub struct UnlinkedNullifiers {
    pub tx_index: u16,
    pub txid: [u8; 32],
    pub nullifiers: Vec<[u8; 32]>,
}

/// A note of the wallet that a transaction spends.
#[derive(Clone, Copy, Debug, PartialEq, Eq)]
pub struct WalletSpend {
    /// The place of the spend among the spends or actions of the transaction.
    pub index: usize,
    pub nf: [u8; 32],
    pub account: AccountId,
}

/// A note that the wallet receives by a transaction.
#[derive(Debug, PartialEq, Eq)]
pub struct WalletOutput<N> {
    /// The place of the output among the outputs or actions of the transaction.
    pub index: usize,
    pub ephemeral_key: [u8; 32],
    pub note: N,
    /// Whether the account that receives the note also spends one in the same transaction.
    pub is_change: bool,
    pub note_commitment_tree_position: u64,
    pub nf: Option<[u8; 32]>,
    pub account: AccountId,
    pub recipient_key_scope: Scope,
}

/// What a transaction holds for the wallet. Ironwood spends and outputs follow the Orchard ones,
/// numbered from the number of the transaction's Orchard actions on.
#[derive(Debug, PartialEq, Eq)]
pub struct WalletTx {
    pub txid: [u8; 32],
    pub block_index: u16,
    pub sapling_spends: Vec<WalletSpend>,
    pub sapling_outputs: Vec<WalletOutput<SaplingNote>>,
    pub orchard_spends: Vec<WalletSpend>,
    pub orchard_outputs: Vec<WalletOutput<OrchardNote>>,
}

/// What a block adds to a pool.
#[derive(Debug, PartialEq, Eq)]
pub struct ScannedBundles {
    pub final_tree_size: u32,
    pub commitments: Vec<Commitment>,
    pub nullifier_map: Vec<UnlinkedNullifiers>,
}

/// What was found in a block.
#[derive(Debug, PartialEq, Eq)]
pub struct ScannedBlock {
    pub block_height: BlockHeight,
    pub block_hash: [u8; 32],
    pub block_time: u32,
    pub transactions: Vec<WalletTx>,
    pub sapling: ScannedBundles,
    pub orchard: ScannedBundles,
    pub ironwood: ScannedBundles,
}

/// A nullifier of a note of the wallet, with the account that the note belongs to.
#[derive(Clone, Copy, Debug, PartialEq, Eq)]
pub struct TrackedNullifier {
    pub account: AccountId,
    pub nf: [u8; 32],
}

/// The nullifiers of the notes of the wallet that are not known to be spent. Those of Ironwood
/// notes are among the Orchard ones.
#[derive(Debug, PartialEq, Eq)]
pub struct Nullifiers {
    pub sapling: Vec<TrackedNullifier>,
    pub orchard: Vec<TrackedNullifier>,
}

/// The parts of a [`Commitment`].
pub struct CommitmentView {
    pub node: Seq<u8>,
    pub retention: Retention,
}

/// The parts of [`UnlinkedNullifiers`].
pub struct UnlinkedView {
    pub tx_index: u16,
    pub txid: Seq<u8>,
    pub nullifiers: Seq<Seq<u8>>,
}

/// The parts of a [`WalletSpend`].
pub struct WalletSpendView {
    pub index: usize,
    pub nf: Seq<u8>,
    pub account: AccountId,
}

/// The parts of a [`WalletOutput`].
pub struct WalletOutputView<N> {
    pub index: usize,
    pub ephemeral_key: Seq<u8>,
    pub note: N,
    pub is_change: bool,
    pub note_commitment_tree_position: u64,
    pub nf: Option<Seq<u8>>,
    pub account: AccountId,
    pub recipient_key_scope: Scope,
}

/// The parts of a [`WalletTx`].
pub struct WalletTxView {
    pub txid: Seq<u8>,
    pub block_index: u16,
    pub sapling_spends: Seq<WalletSpendView>,
    pub sapling_outputs: Seq<WalletOutputView<SaplingNote>>,
    pub orchard_spends: Seq<WalletSpendView>,
    pub orchard_outputs: Seq<WalletOutputView<OrchardNote>>,
}

/// What a block adds to a pool, without the size of the tree.
pub struct BundlesView {
    pub commitments: Seq<CommitmentView>,
    pub nullifier_map: Seq<UnlinkedView>,
}

/// The parts of a [`TrackedNullifier`].
pub struct TrackedView {
    pub account: AccountId,
    pub nf: Seq<u8>,
}

impl View for Commitment {
    type V = CommitmentView;

    open spec fn view(&self) -> CommitmentView {
        CommitmentView { node: self.node@, retention: self.retention }
    }
}

impl View for UnlinkedNullifiers {
    type V = UnlinkedView;

    open spec fn view(&self) -> UnlinkedView {
        UnlinkedView {
            tx_index: self.tx_index,
            txid: self.txid@,
            nullifiers: views(self.nullifiers@),
        }
    }
}

impl View for WalletSpend {
    type V = WalletSpendView;

    open spec fn view(&self) -> WalletSpendView {
        WalletSpendView { index: self.index, nf: self.nf@, account: self.account }
    }
}

impl<N> View for WalletOutput<N> {
    type V = WalletOutputView<N>;

    open spec fn view(&self) -> WalletOutputView<N> {
        WalletOutputView {
            index: self.index,
            ephemeral_key: self.ephemeral_key@,
            note: self.note,
            is_change: self.is_change,
            note_commitment_tree_position: self.note_commitment_tree_position,
            nf: optional_bytes(self.nf),
            account: self.account,
            recipient_key_scope: self.recipient_key_scope,
        }
    }
}

impl View for WalletTx {
    type V = WalletTxView;

    open spec fn view(&self) -> WalletTxView {
        WalletTxView {
            txid: self.txid@,
            block_index: self.block_index,
            sapling_spends: views(self.sapling_spends@),
            sapling_outputs: views(self.sapling_outputs@),
            orchard_spends: views(self.orchard_spends@),
            orchard_outputs: views(self.orchard_outputs@),
        }
    }
}

impl View for TrackedNullifier {
    type V = TrackedView;

    open spec fn view(&self) -> TrackedView {
        TrackedView { account: self.account, nf: self.nf@ }
    }
}

impl ScannedBundles {
    /// What the block adds to the pool, without the size of the tree.
    pub open spec fn parts(self) -> BundlesView {
        BundlesView {
            commitments: views(self.commitments@),
            nullifier_map: views(self.nullifier_map@),
        }
    }
}

/// The account of the first of the known nullifiers that is the given one.
pub open spec fn owner_of(known: Seq<TrackedView>, nf: Seq<u8>) -> Option<AccountId>
    decreases known.len(),
{
    if known.len() == 0 {
        None
    } else if known[0].nf == nf {
        Some(known[0].account)
    } else {
        owner_of(known.skip(1), nf)
    }
}

/// The spends, among the given nullifiers, of notes that the wallet tracks, numbered from
/// `offset` on.
pub open spec fn spends_of(nfs: Seq<Seq<u8>>, known: Seq<TrackedView>, offset: nat) -> Seq<
    WalletSpendView,
>
    decreases nfs.len(),
{
    if nfs.len() == 0 {
        Seq::empty()
    } else {
        let before = spends_of(nfs.drop_last(), known, offset);
        match owner_of(known, nfs.last()) {
            Some(account) => before.push(
                WalletSpendView {
                    index: (offset + nfs.len() - 1) as usize,
                    nf: nfs.last(),
                    account,
                },
            ),
            None => before,
        }
    }
}

/// The nullifiers, among the given ones, of notes that the wallet does not track.
pub open spec fn unlinked_of(nfs: Seq<Seq<u8>>, known: Seq<TrackedView>) -> Seq<Seq<u8>>
    decreases nfs.len(),
{
    if nfs.len() == 0 {
        Seq::empty()
    } else {
        let before = unlinked_of(nfs.drop_last(), known);
        match owner_of(known, nfs.last()) {
            Some(_) => before,
            None => before.push(nfs.last()),
        }
    }
}

/// Whether some of the spends are of an account.
pub open spec fn spent_by(spends: Seq<WalletSpendView>, account: AccountId) -> bool {
    exists|i: int| 0 <= i < spends.len() && (#[trigger] spends[i]).account == account
}

/// Why the commitment to an output is kept.
pub open spec fn retention_of(height: BlockHeight, found: bool, last: bool) -> Retention {
    if last {
        Retention::Checkpoint {
            id: height,
            marking: if found {
                Marking::Marked
            } else {
                Marking::Unmarked
            },
        }
    } else if found {
        Retention::Marked
    } else {
        Retention::Ephemeral
    }
}

/// The commitments to outputs, and why each is kept.
pub open spec fn commitments_of<P: ShieldedPool>(
    height: BlockHeight,
    outputs: Seq<<P::Output as View>::V>,
    found: Seq<Option<(P::Note, int)>>,
    last_in_block: bool,
) -> Seq<CommitmentView> {
    Seq::new(
        outputs.len(),
        |i: int|
            CommitmentView {
                node: P::commitment_of(outputs[i]),
                retention: retention_of(
                    height,
                    found[i] is Some,
                    last_in_block && i + 1 == outputs.len(),
                ),
            },
    )
}

/// The note that was found in an output, as the wallet receives it.
pub open spec fn receive<P: ShieldedPool>(
    keys: Seq<P::Key>,
    output: <P::Output as View>::V,
    note: P::Note,
    k: int,
    spends: Seq<WalletSpendView>,
    index: nat,
    position: nat,
) -> WalletOutputView<P::Note> {
    WalletOutputView {
        index: index as usize,
        ephemeral_key: P::ephemeral_key_of(output),
        note,
        is_change: spent_by(spends, P::account_of(keys[k])),
        note_commitment_tree_position: position as u64,
        nf: P::nullifier_of(keys[k], note, position as u64),
        account: P::account_of(keys[k]),
        recipient_key_scope: P::scope_of(keys[k]),
    }
}

/// The notes that were found in the first `n` outputs, as the wallet receives them.
pub open spec fn received<P: ShieldedPool>(
    keys: Seq<P::Key>,
    outputs: Seq<<P::Output as View>::V>,
    found: Seq<Option<(P::Note, int)>>,
    spends: Seq<WalletSpendView>,
    offset: nat,
    position: nat,
    n: nat,
) -> Seq<WalletOutputView<P::Note>>
    decreases n,
{
    if n == 0 {
        Seq::empty()
    } else {
        let i = (n - 1) as nat;
        let before = received::<P>(keys, outputs, found, spends, offset, position, i);
        match found[i as int] {
            Some((note, k)) => before.push(
                receive::<P>(keys, outputs[i as int], note, k, spends, offset + i, position + i),
            ),
            None => before,
        }
    }
}

/// The account of the first of the known nullifiers that is the given one.
fn find_owner(known: &Vec<TrackedNullifier>, nf: &[u8; 32]) -> (r: Option<AccountId>)
    ensures
        r == owner_of(views(known@), nf@),
{
    let mut i: usize = 0;
    assert(views(known@).skip(0) =~= views(known@));
    while i < known.len()
        invariant
            i <= known.len(),
            owner_of(views(known@), nf@) == owner_of(views(known@).skip(i as int), nf@),
        decreases known.len() - i,
    {
        assert(views(known@).skip(i as int).skip(1) =~= views(known@).skip(i as int + 1));
        if same_bytes(&known[i].nf, nf) {
            return Some(known[i].account);
        }
        i = i + 1;
    }
    None
}

/// Divides nullifiers into the spends of notes that the wallet tracks, numbered from `offset` on,
/// and the nullifiers of other notes.
pub fn find_spent(nfs: &Vec<[u8; 32]>, known: &Vec<TrackedNullifier>, offset: usize) -> (r: (
    Vec<WalletSpend>,
    Vec<[u8; 32]>,
))
    requires
        offset + nfs@.len() <= usize::MAX,
    ensures
        views(r.0@) == spends_of(views(nfs@), views(known@), offset as nat),
        views(r.1@) == unlinked_of(views(nfs@), views(known@)),
{
    let mut spends: Vec<WalletSpend> = Vec::new();
    let mut unlinked: Vec<[u8; 32]> = Vec::new();
    let mut i: usize = 0;
    let ghost all = views(nfs@);
    proof {
        assert(views(spends@) =~= Seq::empty());
        assert(views(unlinked@) =~= Seq::empty());
        assert(all.take(0) =~= Seq::empty());
    }
    while i < nfs.len()
        invariant
            i <= nfs.len(),
            offset + nfs@.len() <= usize::MAX,
            all == views(nfs@),
            views(spends@) == spends_of(all.take(i as int), views(known@), offset as nat),
            views(unlinked@) == unlinked_of(all.take(i as int), views(known@)),
        decreases nfs.len() - i,
    {
        let ghost old_spends = spends@;
        let ghost old_unlinked = unlinked@;
        assert(all.take(i as int + 1).drop_last() =~= all.take(i as int));
        match find_owner(known, &nfs[i]) {
            Some(account) => {
                let spend = WalletSpend { index: offset + i, nf: nfs[i], account };
                spends.push(spend);
                assert(views(spends@) =~= views(old_spends).push(spend@));
            },
            None => {
                unlinked.push(nfs[i]);
                assert(views(unlinked@) =~= views(old_unlinked).push(nfs@[i as int]@));
            },
        }
        i = i + 1;
    }
    assert(all.take(i as int) =~= all);
    (spends, unlinked)
}

/// Whether some of the spends are of an account.
fn is_spent_by(spends: &Vec<WalletSpend>, account: AccountId) -> (r: bool)
    ensures
        r == spent_by(views(spends@), account),
{
    let mut i: usize = 0;
    while i < spends.len()
        invariant
            i <= spends.len(),
            forall|k: int| 0 <= k < i ==> (#[trigger] views(spends@)[k]).account != account,
        decreases spends.len() - i,
    {
        if spends[i].account == account {
            assert(views(spends@)[i as int].account == account);
            return true;
        }
        i = i + 1;
    }
    false
}

/// Puts together what the wallet receives by some outputs and what becomes of their commitments,
/// when it is known which notes were found in them.
pub fn find_received<P: ShieldedPool>(
    height: BlockHeight,
    last_in_block: bool,
    offset: usize,
    position: u32,
    keys: &Vec<P::Key>,
    spends: &Vec<WalletSpend>,
    outputs: &Vec<P::Output>,
    found: &Vec<Option<(P::Note, usize)>>,
) -> (r: (Vec<WalletOutput<P::Note>>, Vec<Commitment>))
    requires
        found@.len() == outputs@.len(),
        offset + outputs@.len() <= usize::MAX,
        position + outputs@.len() <= u32::MAX,
        forall|i: int|
            0 <= i < found@.len() ==> (#[trigger] found@[i] matches Some((_, k)) ==> k
                < keys@.len()),
        forall|k: int| 0 <= k < keys@.len() ==> P::key_valid(#[trigger] keys@[k]),
    ensures
        views(r.0@) == received::<P>(
            keys@,
            views(outputs@),
            as_matches(found@),
            views(spends@),
            offset as nat,
            position as nat,
            outputs@.len(),
        ),
        views(r.1@) == commitments_of::<P>(
            height,
            views(outputs@),
            as_matches(found@),
            last_in_block,
        ),
{
    let mut notes: Vec<WalletOutput<P::Note>> = Vec::new();
    let mut commitments: Vec<Commitment> = Vec::new();
    let ghost parts = views(outputs@);
    let ghost matched = as_matches(found@);
    let ghost target = commitments_of::<P>(height, parts, matched, last_in_block);
    let mut i: usize = 0;
    proof {
        assert(views(notes@) =~= Seq::empty());
        assert(views(commitments@) =~= target.take(0));
    }
    while i < outputs.len()
        invariant
            i <= outputs.len(),
            found@.len() == outputs@.len(),
            offset + outputs@.len() <= usize::MAX,
            position + outputs@.len() <= u32::MAX,
            forall|i: int|
                0 <= i < found@.len() ==> (#[trigger] found@[i] matches Some((_, k)) ==> k
                    < keys@.len()),
            forall|k: int| 0 <= k < keys@.len() ==> P::key_valid(#[trigger] keys@[k]),
            parts == views(outputs@),
            matched == as_matches(found@),
            target == commitments_of::<P>(height, parts, matched, last_in_block),
            views(notes@) == received::<P>(
                keys@,
                parts,
                matched,
                views(spends@),
                offset as nat,
                position as nat,
                i as nat,
            ),
            views(commitments@) == target.take(i as int),
        decreases outputs.len() - i,
    {
        let ghost old_notes = notes@;
        let ghost old_commitments = commitments@;
        let output = &outputs[i];
        let is_checkpoint: bool = last_in_block && i + 1 == outputs.len();
        let is_marked: bool = found[i].is_some();
        assert(matched[i as int] == as_match(found@[i as int]));
        let retention = if is_checkpoint {
            Retention::Checkpoint {
                id: height,
                marking: if is_marked {
                    Marking::Marked
                } else {
                    Marking::Unmarked
                },
            }
        } else if is_marked {
            Retention::Marked
        } else {
            Retention::Ephemeral
        };
        let commitment = Commitment { node: P::commitment(output), retention };
        commitments.push(commitment);
        assert(parts[i as int] == output@);
        assert(commitment@ == target[i as int]);
        assert(views(commitments@) =~= views(old_commitments).push(commitment@));
        assert(target.take(i as int + 1) =~= target.take(i as int).push(target[i as int]));
        if let Some((note, k)) = &found[i] {
            let key = &keys[*k];
            let account: AccountId = P::account(key);
            let at: u64 = position as u64 + i as u64;
            let received_note = WalletOutput {
                index: offset + i,
                ephemeral_key: P::ephemeral_key(output),
                note: *note,
                is_change: is_spent_by(spends, account),
                note_commitment_tree_position: at,
                nf: P::nullifier(key, note, at),
                account,
                recipient_key_scope: P::scope(key),
            };
            notes.push(received_note);
            assert(views(notes@) =~= views(old_notes).push(received_note@));
        }
        i = i + 1;
    }
    assert(target.take(i as int) =~= target);
    (notes, commitments)
}

/// The notes that were found in the outputs of a transaction, each with the number of the key
/// that found it.
#[derive(Debug)]
pub struct FoundInTx {
    pub sapling: Vec<Option<(SaplingNote, usize)>>,
    pub orchard: Vec<Option<(OrchardNote, usize)>>,
    pub ironwood: Vec<Option<(OrchardNote, usize)>>,
}

/// The parts of [`FoundInTx`].
pub struct FoundView {
    pub sapling: Seq<Option<(SaplingNote, int)>>,
    pub orchard: Seq<Option<(OrchardNote, int)>>,
    pub ironwood: Seq<Option<(OrchardNote, int)>>,
}

impl View for FoundInTx {
    type V = FoundView;

    open spec fn view(&self) -> FoundView {
        FoundView {
            sapling: as_matches(self.sapling@),
            orchard: as_matches(self.orchard@),
            ironwood: as_matches(self.ironwood@),
        }
    }
}

/// Whether there is an entry for each output, and each key that found a note is one of `keys`.
pub open spec fn found_fits<N>(found: Seq<Option<(N, int)>>, outputs: nat, keys: nat) -> bool {
    &&& found.len() == outputs
    &&& forall|i: int|
        0 <= i < found.len() ==> (#[trigger] found[i] matches Some((_, k)) ==> 0 <= k < keys)
}

/// Whether what was found belongs to a transaction, when it was looked for with so many keys.
pub open spec fn found_in(found: FoundView, tx: CompactTx, sapling_keys: nat, orchard_keys: nat) -> bool {
    &&& found_fits(found.sapling, tx.outputs@.len(), sapling_keys)
    &&& found_fits(found.orchard, tx.actions@.len(), orchard_keys)
    &&& found_fits(found.ironwood, tx.ironwood_actions@.len(), orchard_keys)
}

/// What the scanning of a block depends on, apart from the block.
pub struct ScanContext {
    pub height: BlockHeight,
    pub zip212: Zip212Enforcement,
    pub sapling_keys: Seq<SaplingKey>,
    pub orchard_keys: Seq<OrchardKey>,
    pub sapling_nfs: Seq<TrackedView>,
    pub orchard_nfs: Seq<TrackedView>,
}

/// How far the scanning of a block has come.
pub struct ScanState {
    pub tracker: PositionTracker,
    pub transactions: Seq<WalletTxView>,
    pub sapling: BundlesView,
    pub orchard: BundlesView,
    pub ironwood: BundlesView,
}

/// The first item of a transaction that cannot be read, and the error that reports it. The
/// nullifiers of all pools are read before the outputs of any.
pub open spec fn tx_error(at_height: BlockHeight, tx: CompactTx) -> Option<ScanError> {
    let txid = tx.txid;
    match first_unmet(spend_nfs_valid(tx.spends@)) {
        Some(index) => Some(
            ScanError::EncodingInvalid { at_height, txid, tree: NoteCommitmentTree::Sapling, index },
        ),
        None => match first_unmet(action_nfs_valid(tx.actions@)) {
            Some(index) => Some(
                ScanError::EncodingInvalid {
                    at_height,
                    txid,
                    tree: NoteCommitmentTree::Orchard,
                    index,
                },
            ),
            None => match first_unmet(action_nfs_valid(tx.ironwood_actions@)) {
                Some(index) => Some(
                    ScanError::EncodingInvalid {
                        at_height,
                        txid,
                        tree: NoteCommitmentTree::Ironwood,
                        index,
                    },
                ),
                None => reading_error(at_height, tx),
            },
        },
    }
}

/// How many of some transactions come before the first one that cannot be read.
pub open spec fn txs_read(at_height: BlockHeight, txs: Seq<CompactTx>) -> nat
    decreases txs.len(),
{
    if txs.len() == 0 {
        0
    } else {
        let before = txs_read(at_height, txs.drop_last());
        if before == txs.len() - 1 && tx_error(at_height, txs.last()) is None {
            txs.len()
        } else {
            before
        }
    }
}

/// Whether the outputs of a transaction in a pool are reached and can be read. The nullifiers of
/// all pools are read before them, and then the outputs of the pools in their order.
pub open spec fn outputs_reached(tx: CompactTx, tree: NoteCommitmentTree) -> bool {
    &&& first_unmet(spend_nfs_valid(tx.spends@)) is None
    &&& first_unmet(action_nfs_valid(tx.actions@)) is None
    &&& first_unmet(action_nfs_valid(tx.ironwood_actions@)) is None
    &&& first_unmet(outputs_valid(tx.outputs@)) is None
    &&& !(tree is Sapling) ==> first_unmet(actions_valid(tx.actions@)) is None
    &&& tree is Ironwood ==> first_unmet(actions_valid(tx.ironwood_actions@)) is None
}

/// How many of some transactions there are whose outputs in a pool are reached.
pub open spec fn txs_reached(
    at_height: BlockHeight,
    txs: Seq<CompactTx>,
    tree: NoteCommitmentTree,
) -> nat {
    let read = txs_read(at_height, txs);
    if read < txs.len() && outputs_reached(txs[read as int], tree) {
        read + 1
    } else {
        read
    }
}

impl ScanContext {
    /// The Sapling spends of a transaction that concern the wallet.
    pub open spec fn sapling_spends(self, tx: CompactTx) -> Seq<WalletSpendView> {
        spends_of(spend_nfs(tx.spends@), self.sapling_nfs, 0)
    }

    /// The Orchard spends of a transaction that concern the wallet.
    pub open spec fn orchard_spends(self, tx: CompactTx) -> Seq<WalletSpendView> {
        spends_of(action_nfs(tx.actions@), self.orchard_nfs, 0)
    }

    /// The Ironwood spends of a transaction that concern the wallet.
    pub open spec fn ironwood_spends(self, tx: CompactTx) -> Seq<WalletSpendView> {
        spends_of(action_nfs(tx.ironwood_actions@), self.orchard_nfs, tx.actions@.len())
    }

    /// All spends of a transaction that concern the wallet.
    pub open spec fn spends(self, tx: CompactTx) -> Seq<WalletSpendView> {
        self.sapling_spends(tx) + self.orchard_spends(tx) + self.ironwood_spends(tx)
    }

    /// The Sapling notes that the wallet receives by a transaction.
    pub open spec fn sapling_outputs(
        self,
        tracker: PositionTracker,
        tx: CompactTx,
        found: FoundView,
    ) -> Seq<WalletOutputView<SaplingNote>> {
        received::<SaplingPool>(
            self.sapling_keys,
            output_parts(tx.outputs@, self.zip212),
            found.sapling,
            self.spends(tx),
            0,
            tracker.sapling_tree_position as nat,
            tx.outputs@.len(),
        )
    }

    /// The Orchard notes that the wallet receives by a transaction.
    pub open spec fn orchard_outputs(
        self,
        tracker: PositionTracker,
        tx: CompactTx,
        found: FoundView,
    ) -> Seq<WalletOutputView<OrchardNote>> {
        received::<OrchardPool>(
            self.orchard_keys,
            action_parts(tx.actions@),
            found.orchard,
            self.spends(tx),
            0,
            tracker.orchard_tree_position as nat,
            tx.actions@.len(),
        )
    }

    /// The Ironwood notes that the wallet receives by a transaction. They are numbered after the
    /// Orchard actions, so that no number occurs twice.
    pub open spec fn ironwood_outputs(
        self,
        tracker: PositionTracker,
        tx: CompactTx,
        found: FoundView,
    ) -> Seq<WalletOutputView<OrchardNote>> {
        received::<IronwoodPool>(
            self.orchard_keys,
            action_parts(tx.ironwood_actions@),
            found.ironwood,
            self.spends(tx),
            tx.actions@.len(),
            tracker.ironwood_tree_position as nat,
            tx.ironwood_actions@.len(),
        )
    }

    /// What a transaction holds for the wallet.
    pub open spec fn wallet_tx(self, tracker: PositionTracker, tx: CompactTx, found: FoundView) -> WalletTxView {
        WalletTxView {
            txid: tx.txid@,
            block_index: tx.index,
            sapling_spends: self.sapling_spends(tx),
            sapling_outputs: self.sapling_outputs(tracker, tx, found),
            orchard_spends: self.orchard_spends(tx) + self.ironwood_spends(tx),
            orchard_outputs: self.orchard_outputs(tracker, tx, found) + self.ironwood_outputs(
                tracker,
                tx,
                found,
            ),
        }
    }

    /// What a transaction adds to the Sapling pool.
    pub open spec fn sapling_bundle(self, tracker: PositionTracker, tx: CompactTx, found: FoundView) -> (
        Seq<CommitmentView>,
        UnlinkedView,
    ) {
        (
            commitments_of::<SaplingPool>(
                self.height,
                output_parts(tx.outputs@, self.zip212),
                found.sapling,
                tracker.sapling_tree_position + tx.outputs@.len()
                    == tracker.sapling_final_tree_size,
            ),
            UnlinkedView {
                tx_index: tx.index,
                txid: tx.txid@,
                nullifiers: unlinked_of(spend_nfs(tx.spends@), self.sapling_nfs),
            },
        )
    }

    /// What a transaction adds to the Orchard pool.
    pub open spec fn orchard_bundle(self, tracker: PositionTracker, tx: CompactTx, found: FoundView) -> (
        Seq<CommitmentView>,
        UnlinkedView,
    ) {
        (
            commitments_of::<OrchardPool>(
                self.height,
                action_parts(tx.actions@),
                found.orchard,
                tracker.orchard_tree_position + tx.actions@.len()
                    == tracker.orchard_final_tree_size,
            ),
            UnlinkedView {
                tx_index: tx.index,
                txid: tx.txid@,
                nullifiers: unlinked_of(action_nfs(tx.actions@), self.orchard_nfs),
            },
        )
    }

    /// What a transaction adds to the Ironwood pool.
    pub open spec fn ironwood_bundle(self, tracker: PositionTracker, tx: CompactTx, found: FoundView) -> (
        Seq<CommitmentView>,
        UnlinkedView,
    ) {
        (
            commitments_of::<IronwoodPool>(
                self.height,
                action_parts(tx.ironwood_actions@),
                found.ironwood,
                tracker.ironwood_tree_position + tx.ironwood_actions@.len()
                    == tracker.ironwood_final_tree_size,
            ),
            UnlinkedView {
                tx_index: tx.index,
                txid: tx.txid@,
                nullifiers: unlinked_of(action_nfs(tx.ironwood_actions@), self.orchard_nfs),
            },
        )
    }
}

impl WalletTxView {
    /// Whether the transaction holds anything for the wallet.
    pub open spec fn concerns_wallet(self) -> bool {
        self.sapling_spends.len() > 0 || self.sapling_outputs.len() > 0 || self.orchard_spends.len()
            > 0 || self.orchard_outputs.len() > 0
    }
}

impl BundlesView {
    /// Nothing at all.
    pub open spec fn nothing() -> BundlesView {
        BundlesView { commitments: Seq::empty(), nullifier_map: Seq::empty() }
    }

    /// What a block adds with one more transaction.
    pub open spec fn with(self, bundle: (Seq<CommitmentView>, UnlinkedView)) -> BundlesView {
        BundlesView {
            commitments: self.commitments + bundle.0,
            nullifier_map: self.nullifier_map.push(bundle.1),
        }
    }
}

/// How far scanning has come after a transaction whose items can all be read.
pub open spec fn after_tx(ctx: ScanContext, st: ScanState, tx: CompactTx, found: FoundView) -> ScanState {
    let wallet_tx = ctx.wallet_tx(st.tracker, tx, found);
    ScanState {
        tracker: st.tracker.after(tx),
        transactions: if wallet_tx.concerns_wallet() {
            st.transactions.push(wallet_tx)
        } else {
            st.transactions
        },
        sapling: st.sapling.with(ctx.sapling_bundle(st.tracker, tx, found)),
        orchard: st.orchard.with(ctx.orchard_bundle(st.tracker, tx, found)),
        ironwood: st.ironwood.with(ctx.ironwood_bundle(st.tracker, tx, found)),
    }
}

/// How far scanning has come after some transactions, or the first error.
pub open spec fn after_txs(
    ctx: ScanContext,
    tracker: PositionTracker,
    txs: Seq<CompactTx>,
    found: Seq<FoundView>,
) -> Result<ScanState, ScanError>
    decreases txs.len(),
{
    if txs.len() == 0 {
        Ok(
            ScanState {
                tracker,
                transactions: Seq::empty(),
                sapling: BundlesView::nothing(),
                orchard: BundlesView::nothing(),
                ironwood: BundlesView::nothing(),
            },
        )
    } else {
        match after_txs(ctx, tracker, txs.drop_last(), found) {
            Err(e) => Err(e),
            Ok(st) => match tx_error(ctx.height, txs.last()) {
                Some(e) => Err(e),
                None => Ok(after_tx(ctx, st, txs.last(), found[txs.len() - 1])),
            },
        }
    }
}

/// Why a block does not follow on the block before.
pub open spec fn continuity_error(block: CompactBlock, prior: Option<BlockMetadata>) -> Option<ScanError> {
    match prior {
        None => None,
        Some(prev) => {
            let expected = if prev.block_height < u32::MAX {
                prev.block_height + 1
            } else {
                u32::MAX as int
            };
            if block.height != expected {
                Some(
                    ScanError::BlockHeightDiscontinuity {
                        prev_height: prev.block_height,
                        new_height: block.height,
                    },
                )
            } else if block.prev_hash@ != prev.block_hash@ {
                Some(ScanError::PrevHashMismatch { at_height: block.height })
            } else {
                None
            }
        },
    }
}

/// What the scanning of a block depends on, apart from the block.
pub open spec fn context_of(
    params: Params,
    block: CompactBlock,
    keys: ScanningKeys,
    nullifiers: Nullifiers,
) -> ScanContext {
    ScanContext {
        height: block.height,
        zip212: params.zip212_rule(block.height),
        sapling_keys: keys.sapling_seq(),
        orchard_keys: keys.orchard_seq(),
        sapling_nfs: views(nullifiers.sapling@),
        orchard_nfs: views(nullifiers.orchard@),
    }
}

/// What the scanning of a block comes to, when it is known which notes were found in it. A block
/// is refused, in this order: if it does not follow on the block before; if the sizes of the trees
/// around it cannot be told; if one of its items cannot be read; if it claims other sizes of the
/// trees than its outputs lead to.
pub open spec fn scan_outcome(
    params: Params,
    block: CompactBlock,
    keys: ScanningKeys,
    nullifiers: Nullifiers,
    prior: Option<BlockMetadata>,
    found: Seq<FoundView>,
) -> Result<ScanState, ScanError> {
    let ctx = context_of(params, block, keys, nullifiers);
    match continuity_error(block, prior) {
        Some(e) => Err(e),
        None => match PositionTracker::at_start(params, block, prior) {
            Err(e) => Err(e),
            Ok(tracker) => match after_txs(ctx, tracker, block.vtx@, found) {
                Err(e) => Err(e),
                Ok(st) => match st.tracker.end_error(block.height, block.chain_metadata) {
                    Some(e) => Err(e),
                    None => Ok(st),
                },
            },
        },
    }
}

impl ScannedBlock {
    /// Whether this is what scanning a block has come to.
    pub open spec fn is(self, block: CompactBlock, st: ScanState) -> bool {
        &&& self.block_height == block.height
        &&& self.block_hash == block.hash
        &&& self.block_time == block.time
        &&& views(self.transactions@) == st.transactions
        &&& self.sapling.parts() == st.sapling
        &&& self.orchard.parts() == st.orchard
        &&& self.ironwood.parts() == st.ironwood
        &&& self.sapling.final_tree_size == st.tracker.sapling_tree_position
        &&& self.orchard.final_tree_size == st.tracker.orchard_tree_position
        &&& self.ironwood.final_tree_size == st.tracker.ironwood_tree_position
    }
}

/// Whether `r` says what scanning a block comes to.
pub open spec fn scan_result(
    r: Result<ScannedBlock, ScanError>,
    block: CompactBlock,
    outcome: Result<ScanState, ScanError>,
) -> bool {
    match (r, outcome) {
        (Ok(scanned), Ok(st)) => scanned.is(block, st),
        (Err(e), Err(f)) => e == f,
        _ => false,
    }
}

/// What a transaction adds to a pool: its commitments, and the nullifiers that it reveals and that
/// belong to no note that the wallet knows.
struct ScannedBundle {
    commitments: Vec<Commitment>,
    nullifiers: Vec<[u8; 32]>,
}

/// What was found in a transaction.
struct ScannedTx {
    wallet_tx: WalletTx,
    sapling: ScannedBundle,
    orchard: ScannedBundle,
    ironwood: ScannedBundle,
}

impl ScannedBundle {
    /// Whether this is what a transaction adds to a pool.
    spec fn is(self, bundle: (Seq<CommitmentView>, UnlinkedView)) -> bool {
        &&& views(self.commitments@) == bundle.0
        &&& views(self.nullifiers@) == bundle.1.nullifiers
    }
}

/// The spends of two lists, one after the other.
fn join_spends(first: &Vec<WalletSpend>, second: &Vec<WalletSpend>) -> (r: Vec<WalletSpend>)
    ensures
        views(r@) == views(first@) + views(second@),
{
    let mut all: Vec<WalletSpend> = Vec::new();
    let mut i: usize = 0;
    while i < first.len()
        invariant
            i <= first.len(),
            all@ == first@.take(i as int),
        decreases first.len() - i,
    {
        all.push(first[i]);
        i = i + 1;
    }
    let mut j: usize = 0;
    assert(all@ =~= first@ + second@.take(0));
    while j < second.len()
        invariant
            j <= second.len(),
            all@ == first@ + second@.take(j as int),
        decreases second.len() - j,
    {
        all.push(second[j]);
        assert(all@ =~= first@ + second@.take(j as int + 1));
        j = j + 1;
    }
    assert(second@.take(j as int) =~= second@);
    assert(views(all@) =~= views(first@) + views(second@));
    all
}

/// Whether the actions of a transaction can be numbered.
pub open spec fn actions_countable(tx: CompactTx) -> bool {
    tx.actions@.len() + tx.ironwood_actions@.len() <= usize::MAX
}

/// Looks at a transaction, when it is known which notes were found in it.
fn scan_tx(
    height: BlockHeight,
    zip212: Zip212Enforcement,
    scanning_keys: &ScanningKeys,
    nullifiers: &Nullifiers,
    tracker: &PositionTracker,
    tx: &CompactTx,
    found: &FoundInTx,
    Ghost(ctx): Ghost<ScanContext>,
) -> (r: Result<ScannedTx, ScanError>)
    requires
        actions_countable(*tx),
        reading_error(height, *tx) is None ==> found_in(
            found@,
            *tx,
            scanning_keys.sapling_seq().len(),
            scanning_keys.orchard_seq().len(),
        ),
        tracker.sapling_tree_position + tx.outputs@.len() <= u32::MAX,
        tracker.orchard_tree_position + tx.actions@.len() <= u32::MAX,
        tracker.ironwood_tree_position + tx.ironwood_actions@.len() <= u32::MAX,
        ctx == (ScanContext {
            height,
            zip212,
            sapling_keys: scanning_keys.sapling_seq(),
            orchard_keys: scanning_keys.orchard_seq(),
            sapling_nfs: views(nullifiers.sapling@),
            orchard_nfs: views(nullifiers.orchard@),
        }),
    ensures
        match tx_error(height, *tx) {
            Some(e) => r matches Err(f) && e == f,
            None => r matches Ok(scanned) && scanned.wallet_tx@ == ctx.wallet_tx(
                *tracker,
                *tx,
                found@,
            ) && scanned.sapling.is(ctx.sapling_bundle(*tracker, *tx, found@))
                && scanned.orchard.is(ctx.orchard_bundle(*tracker, *tx, found@))
                && scanned.ironwood.is(ctx.ironwood_bundle(*tracker, *tx, found@)),
        },
{
    let sapling_nfs = match read_spend_nfs(&tx.spends) {
        Ok(nfs) => nfs,
        Err(index) => {
            return Err(
                invalid_compact_encoding(height, tx.txid, NoteCommitmentTree::Sapling, index),
            );
        },
    };
    let orchard_nfs = match read_action_nfs(&tx.actions) {
        Ok(nfs) => nfs,
        Err(index) => {
            return Err(
                invalid_compact_encoding(height, tx.txid, NoteCommitmentTree::Orchard, index),
            );
        },
    };
    let ironwood_nfs = match read_action_nfs(&tx.ironwood_actions) {
        Ok(nfs) => nfs,
        Err(index) => {
            return Err(
                invalid_compact_encoding(height, tx.txid, NoteCommitmentTree::Ironwood, index),
            );
        },
    };
    let outputs = match read_outputs(&tx.outputs, zip212) {
        Ok(outputs) => outputs,
        Err(index) => {
            return Err(
                invalid_compact_encoding(height, tx.txid, NoteCommitmentTree::Sapling, index),
            );
        },
    };
    let actions = match read_actions(&tx.actions) {
        Ok(actions) => actions,
        Err(index) => {
            return Err(
                invalid_compact_encoding(height, tx.txid, NoteCommitmentTree::Orchard, index),
            );
        },
    };
    let ironwood_actions = match read_actions(&tx.ironwood_actions) {
        Ok(actions) => actions,
        Err(index) => {
            return Err(
                invalid_compact_encoding(height, tx.txid, NoteCommitmentTree::Ironwood, index),
            );
        },
    };
    assert(sapling_nfs.len() <= usize::MAX);
    let (sapling_spends, sapling_unlinked) = find_spent(&sapling_nfs, &nullifiers.sapling, 0);
    let (orchard_spends, orchard_unlinked) = find_spent(&orchard_nfs, &nullifiers.orchard, 0);
    let (ironwood_spends, ironwood_unlinked) = find_spent(
        &ironwood_nfs,
        &nullifiers.orchard,
        tx.actions.len(),
    );
    let wallet_orchard_spends = join_spends(&orchard_spends, &ironwood_spends);
    let spends = join_spends(&sapling_spends, &wallet_orchard_spends);
    proof {
        assert(views(spends@) =~= ctx.spends(*tx));
        lemma_found_indices(found.sapling@, scanning_keys.sapling_seq().len());
        lemma_found_indices(found.orchard@, scanning_keys.orchard_seq().len());
        lemma_found_indices(found.ironwood@, scanning_keys.orchard_seq().len());
    }
    let last_sapling: bool = match tracker.compact_tx_contains_last_sapling_outputs_in_block(
        height,
        tx,
    ) {
        Ok(last) => last,
        Err(e) => {
            assert(false);
            return Err(e);
        },
    };
    let last_orchard: bool = match tracker.compact_tx_contains_last_orchard_actions_in_block(
        height,
        tx,
    ) {
        Ok(last) => last,
        Err(e) => {
            assert(false);
            return Err(e);
        },
    };
    let last_ironwood: bool = match tracker.compact_tx_contains_last_ironwood_actions_in_block(
        height,
        tx,
    ) {
        Ok(last) => last,
        Err(e) => {
            assert(false);
            return Err(e);
        },
    };
    let (sapling_outputs, sapling_commitments) = find_received::<SaplingPool>(
        height,
        last_sapling,
        0,
        tracker.sapling_tree_position,
        scanning_keys.sapling(),
        &spends,
        &outputs,
        &found.sapling,
    );
    let (orchard_outputs, orchard_commitments) = find_received::<OrchardPool>(
        height,
        last_orchard,
        0,
        tracker.orchard_tree_position,
        scanning_keys.orchard(),
        &spends,
        &actions,
        &found.orchard,
    );
    proof {
        let keys = scanning_keys.orchard_seq();
        assert forall|k: int| 0 <= k < keys.len() implies IronwoodPool::key_valid(
            #[trigger] keys[k],
        ) by {
            assert(OrchardPool::key_valid(keys[k]));
        }
    }
    let (ironwood_outputs, ironwood_commitments) = find_received::<IronwoodPool>(
        height,
        last_ironwood,
        tx.actions.len(),
        tracker.ironwood_tree_position,
        scanning_keys.orchard(),
        &spends,
        &ironwood_actions,
        &found.ironwood,
    );
    let ghost orchard_part = views(orchard_outputs@);
    let ghost ironwood_part = views(ironwood_outputs@);
    let mut wallet_orchard_outputs = orchard_outputs;
    let mut ironwood_outputs = ironwood_outputs;
    wallet_orchard_outputs.append(&mut ironwood_outputs);
    proof {
        assert(views(wallet_orchard_outputs@) =~= orchard_part + ironwood_part);
    }
    Ok(
        ScannedTx {
            wallet_tx: WalletTx {
                txid: tx.txid,
                block_index: tx.index,
                sapling_spends,
                sapling_outputs,
                orchard_spends: wallet_orchard_spends,
                orchard_outputs: wallet_orchard_outputs,
            },
            sapling: ScannedBundle { commitments: sapling_commitments, nullifiers: sapling_unlinked },
            orchard: ScannedBundle { commitments: orchard_commitments, nullifiers: orchard_unlinked },
            ironwood: ScannedBundle {
                commitments: ironwood_commitments,
                nullifiers: ironwood_unlinked,
            },
        },
    )
}

/// The numbers of the keys that found something are numbers of keys.
proof fn lemma_found_indices<N>(found: Seq<Option<(N, usize)>>, keys: nat)
    ensures
        found_fits(as_matches(found), found.len(), keys) ==> forall|i: int|
            0 <= i < found.len() ==> (#[trigger] found[i] matches Some((_, k)) ==> k < keys),
        as_matches(found).len() == found.len(),
{
    if found_fits(as_matches(found), found.len(), keys) {
        assert forall|i: int| 0 <= i < found.len() implies (#[trigger] found[i] matches Some((_, k))
            ==> k < keys) by {
            assert(as_matches(found)[i] == as_match(found[i]));
        }
    }
}

/// Why a block does not follow on the block before.
fn check_hash_continuity(block: &CompactBlock, prior_block_metadata: Option<&BlockMetadata>) -> (r:
    Option<ScanError>)
    ensures
        r == continuity_error(*block, given(prior_block_metadata)),
{
    if let Some(prev) = prior_block_metadata {
        let expected: BlockHeight = match prev.block_height.checked_add(1) {
            Some(height) => height,
            None => BlockHeight::MAX,
        };
        if block.height != expected {
            return Some(
                ScanError::BlockHeightDiscontinuity {
                    prev_height: prev.block_height,
                    new_height: block.height,
                },
            );
        }
        if !same_bytes(&block.prev_hash, &prev.block_hash) {
            return Some(ScanError::PrevHashMismatch { at_height: block.height });
        }
    }
    None
}

/// Adds to a pool what a transaction adds to it.
fn add_bundle(
    commitments: &mut Vec<Commitment>,
    nullifier_map: &mut Vec<UnlinkedNullifiers>,
    tx: &CompactTx,
    bundle: ScannedBundle,
    Ghost(part): Ghost<(Seq<CommitmentView>, UnlinkedView)>,
)
    requires
        bundle.is(part),
        part.1.tx_index == tx.index,
        part.1.txid == tx.txid@,
    ensures
        views(final(commitments)@) == views(old(commitments)@) + part.0,
        views(final(nullifier_map)@) == views(old(nullifier_map)@).push(part.1),
{
    let ghost before = commitments@;
    let ghost map_before = nullifier_map@;
    let ghost added = bundle.commitments@;
    let mut bundle = bundle;
    commitments.append(&mut bundle.commitments);
    assert(views(commitments@) =~= views(before) + views(added));
    let entry = UnlinkedNullifiers {
        tx_index: tx.index,
        txid: tx.txid,
        nullifiers: bundle.nullifiers,
    };
    nullifier_map.push(entry);
    assert(views(nullifier_map@) =~= views(map_before).push(entry@));
}

/// An error at one of the transactions is an error of all of them.
proof fn lemma_error_kept(
    ctx: ScanContext,
    tracker: PositionTracker,
    txs: Seq<CompactTx>,
    found: Seq<FoundView>,
    n: int,
)
    requires
        0 <= n <= txs.len(),
        after_txs(ctx, tracker, txs.take(n), found) is Err,
    ensures
        after_txs(ctx, tracker, txs, found) == after_txs(ctx, tracker, txs.take(n), found),
    decreases txs.len(),
{
    if n < txs.len() {
        assert(txs.drop_last().take(n) =~= txs.take(n));
        lemma_error_kept(ctx, tracker, txs.drop_last(), found, n);
    } else {
        assert(txs.take(n) =~= txs);
    }
}

/// Scans a block, when it is known which notes were found in its outputs.
pub fn scan_block_with_found(
    params: &Params,
    block: &CompactBlock,
    scanning_keys: &ScanningKeys,
    nullifiers: &Nullifiers,
    prior_block_metadata: Option<&BlockMetadata>,
    found: &Vec<FoundInTx>,
) -> (r: Result<ScannedBlock, ScanError>)
    requires
        found@.len() == block.vtx@.len(),
        forall|t: int| 0 <= t < block.vtx@.len() ==> actions_countable(#[trigger] block.vtx@[t]),
        forall|t: int|
            0 <= t < block.vtx@.len() ==> (reading_error(block.height, #[trigger] block.vtx@[t])
                is None ==> found_in(
                found@[t]@,
                block.vtx@[t],
                scanning_keys.sapling_seq().len(),
                scanning_keys.orchard_seq().len(),
            )),
    ensures
        scan_result(
            r,
            *block,
            scan_outcome(
                *params,
                *block,
                *scanning_keys,
                *nullifiers,
                given(prior_block_metadata),
                views(found@),
            ),
        ),
        r matches Ok(scanned) ==> all_change_told(scanned.transactions@),
{
    let ghost ctx = context_of(*params, *block, *scanning_keys, *nullifiers);
    let ghost all_found = views(found@);
    if let Some(e) = check_hash_continuity(block, prior_block_metadata) {
        return Err(e);
    }
    let zip212 = params.zip212_enforcement(block.height);
    let start = match PositionTracker::for_compact_block(params, block, prior_block_metadata) {
        Ok(tracker) => tracker,
        Err(e) => {
            return Err(e);
        },
    };
    let mut tracker: PositionTracker = start;
    let mut transactions: Vec<WalletTx> = Vec::new();
    let mut sapling_commitments: Vec<Commitment> = Vec::new();
    let mut sapling_nullifier_map: Vec<UnlinkedNullifiers> = Vec::new();
    let mut orchard_commitments: Vec<Commitment> = Vec::new();
    let mut orchard_nullifier_map: Vec<UnlinkedNullifiers> = Vec::new();
    let mut ironwood_commitments: Vec<Commitment> = Vec::new();
    let mut ironwood_nullifier_map: Vec<UnlinkedNullifiers> = Vec::new();
    let ghost mut st = ScanState {
        tracker: start,
        transactions: Seq::empty(),
        sapling: BundlesView::nothing(),
        orchard: BundlesView::nothing(),
        ironwood: BundlesView::nothing(),
    };
    let mut t: usize = 0;
    proof {
        assert(block.vtx@.take(0) =~= Seq::empty());
        assert(block.vtx@.skip(0) =~= block.vtx@);
        assert(views(transactions@) =~= Seq::empty());
        assert(views(sapling_commitments@) =~= Seq::empty());
        assert(views(sapling_nullifier_map@) =~= Seq::empty());
        assert(views(orchard_commitments@) =~= Seq::empty());
        assert(views(orchard_nullifier_map@) =~= Seq::empty());
        assert(views(ironwood_commitments@) =~= Seq::empty());
        assert(views(ironwood_nullifier_map@) =~= Seq::empty());
    }
    while t < block.vtx.len()
        invariant
            t <= block.vtx.len(),
            found@.len() == block.vtx@.len(),
            forall|t: int|
                0 <= t < block.vtx@.len() ==> actions_countable(#[trigger] block.vtx@[t]),
            forall|t: int|
                0 <= t < block.vtx@.len() ==> (reading_error(
                    block.height,
                    #[trigger] block.vtx@[t],
                ) is None ==> found_in(
                    found@[t]@,
                    block.vtx@[t],
                    scanning_keys.sapling_seq().len(),
                    scanning_keys.orchard_seq().len(),
                )),
            continuity_error(*block, given(prior_block_metadata)) is None,
            PositionTracker::at_start(*params, *block, given(prior_block_metadata)) == Ok::<
                PositionTracker,
                ScanError,
            >(start),
            ctx == context_of(*params, *block, *scanning_keys, *nullifiers),
            zip212 == params.zip212_rule(block.height),
            all_found == views(found@),
            tracker == st.tracker,
            tracker.before(block.vtx@.skip(t as int)),
            after_txs(ctx, start, block.vtx@.take(t as int), all_found) == Ok::<
                ScanState,
                ScanError,
            >(st),
            views(transactions@) == st.transactions,
            views(sapling_commitments@) == st.sapling.commitments,
            views(sapling_nullifier_map@) == st.sapling.nullifier_map,
            views(orchard_commitments@) == st.orchard.commitments,
            views(orchard_nullifier_map@) == st.orchard.nullifier_map,
            views(ironwood_commitments@) == st.ironwood.commitments,
            views(ironwood_nullifier_map@) == st.ironwood.nullifier_map,
        decreases block.vtx.len() - t,
    {
        let tx = &block.vtx[t];
        let ghost rest = block.vtx@.skip(t as int);
        let ghost part = all_found[t as int];
        proof {
            assert(rest[0] == *tx);
            assert(rest.skip(1) =~= block.vtx@.skip(t as int + 1));
            lemma_tracker_advances(tracker, rest);
            assert(tracker.position(NoteCommitmentTree::Sapling)
                + NoteCommitmentTree::Sapling.outputs_in(*tx) <= u32::MAX);
            assert(tracker.position(NoteCommitmentTree::Orchard)
                + NoteCommitmentTree::Orchard.outputs_in(*tx) <= u32::MAX);
            assert(tracker.position(NoteCommitmentTree::Ironwood)
                + NoteCommitmentTree::Ironwood.outputs_in(*tx) <= u32::MAX);
            assert(block.vtx@.take(t as int + 1).drop_last() =~= block.vtx@.take(t as int));
            assert(part == found@[t as int]@);
            if tx_error(block.height, *tx) is Some {
                lemma_error_kept(ctx, start, block.vtx@, all_found, t as int + 1);
            }
        }
        let scanned = match scan_tx(
            block.height,
            zip212,
            scanning_keys,
            nullifiers,
            &tracker,
            tx,
            &found[t],
            Ghost(ctx),
        ) {
            Ok(scanned) => scanned,
            Err(e) => {
                return Err(e);
            },
        };
        let ghost before = transactions@;
        let ScannedTx { wallet_tx, sapling, orchard, ironwood } = scanned;
        add_bundle(
            &mut sapling_commitments,
            &mut sapling_nullifier_map,
            tx,
            sapling,
            Ghost(ctx.sapling_bundle(tracker, *tx, part)),
        );
        add_bundle(
            &mut orchard_commitments,
            &mut orchard_nullifier_map,
            tx,
            orchard,
            Ghost(ctx.orchard_bundle(tracker, *tx, part)),
        );
        add_bundle(
            &mut ironwood_commitments,
            &mut ironwood_nullifier_map,
            tx,
            ironwood,
            Ghost(ctx.ironwood_bundle(tracker, *tx, part)),
        );
        let concerns_wallet: bool = wallet_tx.sapling_spends.len() > 0
            || wallet_tx.sapling_outputs.len() > 0 || wallet_tx.orchard_spends.len() > 0
            || wallet_tx.orchard_outputs.len() > 0;
        proof {
            assert(concerns_wallet == wallet_tx@.concerns_wallet()) by {
                assert(views(wallet_tx.sapling_spends@).len() == wallet_tx.sapling_spends@.len());
                assert(views(wallet_tx.sapling_outputs@).len() == wallet_tx.sapling_outputs@.len());
                assert(views(wallet_tx.orchard_spends@).len() == wallet_tx.orchard_spends@.len());
                assert(views(wallet_tx.orchard_outputs@).len() == wallet_tx.orchard_outputs@.len());
            }
        }
        if concerns_wallet {
            let ghost pushed = wallet_tx@;
            transactions.push(wallet_tx);
            assert(views(transactions@) =~= views(before).push(pushed));
        }
        match tracker.increment_over_compact_tx(block.height, tx) {
            Ok(()) => {},
            Err(e) => {
                assert(false);
                return Err(e);
            },
        }
        proof {
            st = after_tx(ctx, st, *tx, part);
        }
        t = t + 1;
    }
    proof {
        assert(block.vtx@.take(t as int) =~= block.vtx@);
        assert(block.vtx@.skip(t as int) =~= Seq::empty());
        assert(tracker.position(NoteCommitmentTree::Sapling)
            + NoteCommitmentTree::Sapling.outputs_of(Seq::empty()) == tracker.final_size(
            NoteCommitmentTree::Sapling,
        ));
        assert(tracker.position(NoteCommitmentTree::Orchard)
            + NoteCommitmentTree::Orchard.outputs_of(Seq::empty()) == tracker.final_size(
            NoteCommitmentTree::Orchard,
        ));
        assert(tracker.position(NoteCommitmentTree::Ironwood)
            + NoteCommitmentTree::Ironwood.outputs_of(Seq::empty()) == tracker.final_size(
            NoteCommitmentTree::Ironwood,
        ));
    }
    if let Err(e) = tracker.check_end_of_compact_block_consistency(
        block.height,
        block.chain_metadata,
    ) {
        return Err(e);
    }
    proof {
        lemma_change_by_spends(
            *params,
            *block,
            *scanning_keys,
            *nullifiers,
            given(prior_block_metadata),
            all_found,
            transactions@,
        );
    }
    Ok(
        ScannedBlock {
            block_height: block.height,
            block_hash: block.hash,
            block_time: block.time,
            transactions,
            sapling: ScannedBundles {
                final_tree_size: tracker.sapling_final_tree_size,
                commitments: sapling_commitments,
                nullifier_map: sapling_nullifier_map,
            },
            orchard: ScannedBundles {
                final_tree_size: tracker.orchard_final_tree_size,
                commitments: orchard_commitments,
                nullifier_map: orchard_nullifier_map,
            },
            ironwood: ScannedBundles {
                final_tree_size: tracker.ironwood_final_tree_size,
                commitments: ironwood_commitments,
                nullifier_map: ironwood_nullifier_map,
            },
        },
    )
}

impl ScanContext {
    /// The notes that the keys find in a transaction.
    pub open spec fn finds_in(self, tx: CompactTx) -> FoundView {
        FoundView {
            sapling: matches_of::<SaplingPool>(
                self.sapling_keys,
                output_parts(tx.outputs@, self.zip212),
            ),
            orchard: matches_of::<OrchardPool>(self.orchard_keys, action_parts(tx.actions@)),
            ironwood: matches_of::<IronwoodPool>(
                self.orchard_keys,
                action_parts(tx.ironwood_actions@),
            ),
        }
    }

    /// The notes that the keys find in each of some transactions.
    pub open spec fn finds_in_all(self, txs: Seq<CompactTx>) -> Seq<FoundView> {
        txs.map_values(|tx: CompactTx| self.finds_in(tx))
    }
}

/// What a runner gives out for a transaction with `n` outputs of its pool: what it found in the
/// outputs that were handed over, or nothing if none were or they were collected before.
pub open spec fn given_out<P: ShieldedPool>(
    runner: BatchRunner<P>,
    block_hash: Seq<u8>,
    txid: Seq<u8>,
    collected: bool,
    n: nat,
) -> Seq<Option<(P::Note, int)>> {
    Seq::new(
        n,
        |i: int|
            match runner.handed_over(block_hash, txid) {
                Some(outputs) => if !collected && i < outputs.len() {
                    first_match::<P>(runner.key_seq(), outputs[i])
                } else {
                    None
                },
                None => None,
            },
    )
}

/// Whether one of the first `t` transactions has an identifier.
pub open spec fn among_first(txs: Seq<CompactTx>, t: int, txid: Seq<u8>) -> bool {
    exists|u: int| 0 <= u < t && (#[trigger] txs[u]).txid@ == txid
}

/// What the runners give out for the transaction at place `t` of a block.
pub open spec fn runners_give(
    runners: BatchRunners,
    block_hash: Seq<u8>,
    txs: Seq<CompactTx>,
    t: int,
) -> FoundView {
    let tx = txs[t];
    let collected = among_first(txs, t, tx.txid@);
    FoundView {
        sapling: given_out(
            runners.sapling,
            block_hash,
            tx.txid@,
            collected,
            tx.outputs@.len(),
        ),
        orchard: given_out(
            runners.orchard,
            block_hash,
            tx.txid@,
            collected,
            tx.actions@.len(),
        ),
        ironwood: given_out(
            runners.ironwood,
            block_hash,
            tx.txid@,
            collected,
            tx.ironwood_actions@.len(),
        ),
    }
}

/// What the runners give out for each of the transactions of a block.
pub open spec fn runners_give_all(runners: BatchRunners, block_hash: Seq<u8>, txs: Seq<CompactTx>) -> Seq<
    FoundView,
> {
    Seq::new(txs.len(), |t: int| runners_give(runners, block_hash, txs, t))
}

/// All transactions before the first one that cannot be read can be read, and scanning comes to the
/// end of the transactions if there is no such one.
pub proof fn lemma_txs_read(
    ctx: ScanContext,
    tracker: PositionTracker,
    txs: Seq<CompactTx>,
    found: Seq<FoundView>,
)
    ensures
        txs_read(ctx.height, txs) <= txs.len(),
        after_txs(ctx, tracker, txs, found) is Ok <==> txs_read(ctx.height, txs) == txs.len(),
        forall|t: int|
            0 <= t < txs_read(ctx.height, txs) ==> tx_error(ctx.height, #[trigger] txs[t]) is None,
    decreases txs.len(),
{
    if txs.len() > 0 {
        let before = txs.drop_last();
        lemma_txs_read(ctx, tracker, before, found);
        assert forall|t: int| 0 <= t < txs_read(ctx.height, txs) implies tx_error(
            ctx.height,
            #[trigger] txs[t],
        ) is None by {
            if t < before.len() {
                assert(before[t] == txs[t]);
            }
        }
    }
}

/// Where all transactions before one can be read and it cannot be, or there is none left, they are
/// those that are read.
proof fn lemma_txs_read_is(at_height: BlockHeight, txs: Seq<CompactTx>, n: int)
    requires
        0 <= n <= txs.len(),
        forall|t: int| 0 <= t < n ==> tx_error(at_height, #[trigger] txs[t]) is None,
        n < txs.len() ==> tx_error(at_height, txs[n]) is Some,
    ensures
        txs_read(at_height, txs) == n,
    decreases txs.len(),
{
    if txs.len() > 0 {
        let before = txs.drop_last();
        if n < txs.len() {
            lemma_txs_read_is(at_height, before, n);
        } else {
            assert(tx_error(at_height, txs[n - 1]) is None);
            lemma_txs_read_is(at_height, before, n - 1);
        }
    }
}

/// Scanning does not depend on what was found in transactions that are not read.
proof fn lemma_found_agree(
    ctx: ScanContext,
    tracker: PositionTracker,
    txs: Seq<CompactTx>,
    a: Seq<FoundView>,
    b: Seq<FoundView>,
)
    requires
        forall|t: int| 0 <= t < txs_read(ctx.height, txs) ==> #[trigger] a[t] == b[t],
    ensures
        after_txs(ctx, tracker, txs, a) == after_txs(ctx, tracker, txs, b),
    decreases txs.len(),
{
    if txs.len() > 0 {
        let before = txs.drop_last();
        lemma_txs_read(ctx, tracker, before, a);
        lemma_found_agree(ctx, tracker, before, a, b);
        if txs_read(ctx.height, txs) == txs.len() {
            assert(a[txs.len() - 1] == b[txs.len() - 1]);
        }
    }
}

/// What the keys find comes from the keys.
proof fn lemma_matches_fit<P: ShieldedPool>(keys: Seq<P::Key>, outputs: Seq<<P::Output as View>::V>)
    ensures
        found_fits(matches_of::<P>(keys, outputs), outputs.len(), keys.len()),
{
    assert forall|i: int| 0 <= i < outputs.len() implies (#[trigger] matches_of::<P>(
        keys,
        outputs,
    )[i] matches Some((_, k)) ==> 0 <= k < keys.len()) by {
        lemma_first_match_index::<P>(keys, outputs[i]);
    }
}

/// Looks for notes in each transaction of a block.
fn find_in_block(zip212: Zip212Enforcement, block: &CompactBlock, scanning_keys: &ScanningKeys, Ghost(ctx): Ghost<ScanContext>) -> (r: Vec<FoundInTx>)
    requires
        ctx.height == block.height,
        ctx.zip212 == zip212,
        ctx.sapling_keys == scanning_keys.sapling_seq(),
        ctx.orchard_keys == scanning_keys.orchard_seq(),
    ensures
        r@.len() == block.vtx@.len(),
        forall|t: int|
            0 <= t < block.vtx@.len() ==> (reading_error(block.height, #[trigger] block.vtx@[t])
                is None ==> r@[t]@ == ctx.finds_in(block.vtx@[t])),
{
    let mut all: Vec<FoundInTx> = Vec::new();
    let mut t: usize = 0;
    while t < block.vtx.len()
        invariant
            t <= block.vtx.len(),
            all@.len() == t,
            ctx.height == block.height,
            ctx.zip212 == zip212,
            ctx.sapling_keys == scanning_keys.sapling_seq(),
            ctx.orchard_keys == scanning_keys.orchard_seq(),
            forall|u: int|
                0 <= u < t ==> (reading_error(block.height, #[trigger] block.vtx@[u]) is None
                    ==> all@[u]@ == ctx.finds_in(block.vtx@[u])),
        decreases block.vtx.len() - t,
    {
        let tx = &block.vtx[t];
        let found = match (
            read_outputs(&tx.outputs, zip212),
            read_actions(&tx.actions),
            read_actions(&tx.ironwood_actions),
        ) {
            (Ok(outputs), Ok(actions), Ok(ironwood_actions)) => {
                proof {
                    lemma_none_unmet(outputs_valid(tx.outputs@));
                    lemma_none_unmet(actions_valid(tx.actions@));
                    lemma_none_unmet(actions_valid(tx.ironwood_actions@));
                    assert forall|k: int|
                        0 <= k < outputs@.len() implies SaplingPool::output_valid(
                        (#[trigger] outputs@[k])@,
                    ) by {
                        assert(views(outputs@)[k] == output_parts(tx.outputs@, zip212)[k]);
                        assert(outputs_valid(tx.outputs@)[k]);
                    }
                    assert forall|k: int|
                        0 <= k < actions@.len() implies OrchardPool::output_valid(
                        (#[trigger] actions@[k])@,
                    ) by {
                        assert(views(actions@)[k] == action_parts(tx.actions@)[k]);
                        assert(actions_valid(tx.actions@)[k]);
                    }
                    assert forall|k: int|
                        0 <= k < ironwood_actions@.len() implies IronwoodPool::output_valid(
                        (#[trigger] ironwood_actions@[k])@,
                    ) by {
                        assert(views(ironwood_actions@)[k] == action_parts(
                            tx.ironwood_actions@,
                        )[k]);
                        assert(actions_valid(tx.ironwood_actions@)[k]);
                    }
                }
                let orchard_keys = scanning_keys.orchard();
                assert forall|k: int| 0 <= k < orchard_keys@.len() implies IronwoodPool::key_valid(
                    #[trigger] orchard_keys@[k],
                ) by {
                    assert(OrchardPool::key_valid(orchard_keys@[k]));
                }
                let found = FoundInTx {
                    sapling: try_decrypt::<SaplingPool>(scanning_keys.sapling(), &outputs),
                    orchard: try_decrypt::<OrchardPool>(orchard_keys, &actions),
                    ironwood: try_decrypt::<IronwoodPool>(orchard_keys, &ironwood_actions),
                };
                proof {
                    let expected = ctx.finds_in(*tx);
                    assert(found@.sapling =~= expected.sapling) by {
                        assert forall|k: int| 0 <= k < outputs@.len() implies found@.sapling[k]
                            == expected.sapling[k] by {
                            assert(views(outputs@)[k] == outputs@[k]@);
                            assert(found@.sapling[k] == as_match(found.sapling@[k]));
                        }
                    }
                    assert(found@.orchard =~= expected.orchard) by {
                        assert forall|k: int| 0 <= k < actions@.len() implies found@.orchard[k]
                            == expected.orchard[k] by {
                            assert(views(actions@)[k] == actions@[k]@);
                            assert(found@.orchard[k] == as_match(found.orchard@[k]));
                        }
                    }
                    assert(found@.ironwood =~= expected.ironwood) by {
                        assert forall|k: int|
                            0 <= k < ironwood_actions@.len() implies found@.ironwood[k]
                            == expected.ironwood[k] by {
                            assert(views(ironwood_actions@)[k] == ironwood_actions@[k]@);
                            assert(found@.ironwood[k] == as_match(found.ironwood@[k]));
                        }
                    }
                }
                found
            },
            _ => FoundInTx { sapling: Vec::new(), orchard: Vec::new(), ironwood: Vec::new() },
        };
        all.push(found);
        t = t + 1;
    }
    all
}

/// Scans a block with the given keys.
pub fn scan_block(
    params: &Params,
    block: &CompactBlock,
    scanning_keys: &ScanningKeys,
    nullifiers: &Nullifiers,
    prior_block_metadata: Option<&BlockMetadata>,
) -> (r: Result<ScannedBlock, ScanError>)
    requires
        forall|t: int| 0 <= t < block.vtx@.len() ==> actions_countable(#[trigger] block.vtx@[t]),
    ensures
        scan_result(
            r,
            *block,
            scan_outcome(
                *params,
                *block,
                *scanning_keys,
                *nullifiers,
                given(prior_block_metadata),
                context_of(*params, *block, *scanning_keys, *nullifiers).finds_in_all(block.vtx@),
            ),
        ),
        r matches Ok(scanned) ==> all_change_told(scanned.transactions@),
{
    let ghost ctx = context_of(*params, *block, *scanning_keys, *nullifiers);
    let zip212 = params.zip212_enforcement(block.height);
    let found = find_in_block(zip212, block, scanning_keys, Ghost(ctx));
    proof {
        let all = ctx.finds_in_all(block.vtx@);
        assert forall|t: int|
            0 <= t < block.vtx@.len() && reading_error(block.height, #[trigger] block.vtx@[t])
                is None implies found_in(
            found@[t]@,
            block.vtx@[t],
            scanning_keys.sapling_seq().len(),
            scanning_keys.orchard_seq().len(),
        ) && views(found@)[t] == all[t] by {
            let tx = block.vtx@[t];
            lemma_matches_fit::<SaplingPool>(
                ctx.sapling_keys,
                output_parts(tx.outputs@, ctx.zip212),
            );
            lemma_matches_fit::<OrchardPool>(ctx.orchard_keys, action_parts(tx.actions@));
            lemma_matches_fit::<IronwoodPool>(
                ctx.orchard_keys,
                action_parts(tx.ironwood_actions@),
            );
        }
        if let Ok(tracker) = PositionTracker::at_start(
            *params,
            *block,
            given(prior_block_metadata),
        ) {
            lemma_txs_read(ctx, tracker, block.vtx@, all);
            assert forall|t: int| 0 <= t < txs_read(ctx.height, block.vtx@) implies #[trigger] views(
                found@,
            )[t] == all[t] by {
                assert(tx_error(ctx.height, block.vtx@[t]) is None);
            }
            lemma_found_agree(ctx, tracker, block.vtx@, views(found@), all);
        }
    }
    scan_block_with_found(
        params,
        block,
        scanning_keys,
        nullifiers,
        prior_block_metadata,
        &found,
    )
}

/// Collects what a runner found in the `n` outputs of a transaction.
fn collect_found<P: ShieldedPool>(
    runner: &mut BatchRunner<P>,
    block_hash: [u8; 32],
    txid: [u8; 32],
    n: usize,
) -> (r: Vec<Option<(P::Note, usize)>>)
    requires
        old(runner).flushed(),
    ensures
        final(runner).flushed(),
        final(runner).key_seq() == old(runner).key_seq(),
        as_matches(r@) == given_out(*old(runner), block_hash@, txid@, false, n as nat),
        forall|h: Seq<u8>, t: Seq<u8>| #[trigger]
            final(runner).handed_over(h, t) == if h == block_hash@ && t == txid@ {
                None
            } else {
                old(runner).handed_over(h, t)
            },
{
    let ghost before = *runner;
    let ghost expected = given_out(before, block_hash@, txid@, false, n as nat);
    let collected = runner.collect_results(block_hash, txid);
    let mut found: Vec<Option<(P::Note, usize)>> = Vec::new();
    let mut i: usize = 0;
    while i < n
        invariant
            i <= n,
            found@.len() == i,
            expected == given_out(before, block_hash@, txid@, false, n as nat),
            match before.handed_over(block_hash@, txid@) {
                None => collected is None,
                Some(outputs) => collected matches Some(all) && as_matches(all@) == matches_of::<P>(
                    before.key_seq(),
                    outputs,
                ),
            },
            forall|k: int| 0 <= k < i ==> as_match(#[trigger] found@[k]) == expected[k],
        decreases n - i,
    {
        let item: Option<(P::Note, usize)> = match &collected {
            Some(all) => {
                proof {
                    let outputs = before.handed_over(block_hash@, txid@)->0;
                    assert(as_matches(all@).len() == matches_of::<P>(
                        before.key_seq(),
                        outputs,
                    ).len());
                    if i < all@.len() {
                        assert(as_matches(all@)[i as int] == matches_of::<P>(
                            before.key_seq(),
                            outputs,
                        )[i as int]);
                    }
                }
                if i < all.len() {
                    all[i]
                } else {
                    None
                }
            },
            None => None,
        };
        found.push(item);
        i = i + 1;
    }
    assert(as_matches(found@) =~= expected);
    found
}

/// What a runner gives out comes from its keys.
proof fn lemma_given_out_fits<P: ShieldedPool>(
    runner: BatchRunner<P>,
    block_hash: Seq<u8>,
    txid: Seq<u8>,
    collected: bool,
    n: nat,
)
    ensures
        found_fits(
            given_out(runner, block_hash, txid, collected, n),
            n,
            runner.key_seq().len(),
        ),
{
    assert forall|i: int| 0 <= i < n implies (#[trigger] given_out(
        runner,
        block_hash,
        txid,
        collected,
        n,
    )[i] matches Some((_, k)) ==> 0 <= k < runner.key_seq().len()) by {
        if let Some(outputs) = runner.handed_over(block_hash, txid) {
            lemma_first_match_index::<P>(runner.key_seq(), outputs[i]);
        }
    }
}

/// Whether a runner holds what it held before the first `t` transactions of a block were collected,
/// except those.
pub open spec fn collected_from<P: ShieldedPool>(
    runner: BatchRunner<P>,
    before: BatchRunner<P>,
    block_hash: Seq<u8>,
    txs: Seq<CompactTx>,
    t: int,
) -> bool {
    &&& runner.flushed()
    &&& runner.key_seq() == before.key_seq()
    &&& forall|h: Seq<u8>, i: Seq<u8>| #[trigger]
        runner.handed_over(h, i) == if h == block_hash && among_first(txs, t, i) {
            None
        } else {
            before.handed_over(h, i)
        }
}

/// A runner from which earlier transactions were collected gives out for the next one what it
/// would have given out, unless it was one of them.
proof fn lemma_collected_from<P: ShieldedPool>(
    runner: BatchRunner<P>,
    before: BatchRunner<P>,
    next: BatchRunner<P>,
    block_hash: Seq<u8>,
    txs: Seq<CompactTx>,
    t: int,
    n: nat,
)
    requires
        0 <= t < txs.len(),
        collected_from(runner, before, block_hash, txs, t),
        next.flushed(),
        next.key_seq() == runner.key_seq(),
        forall|h: Seq<u8>, i: Seq<u8>| #[trigger]
            next.handed_over(h, i) == if h == block_hash && i == txs[t].txid@ {
                None
            } else {
                runner.handed_over(h, i)
            },
    ensures
        given_out(runner, block_hash, txs[t].txid@, false, n) == given_out(
            before,
            block_hash,
            txs[t].txid@,
            among_first(txs, t, txs[t].txid@),
            n,
        ),
        collected_from(next, before, block_hash, txs, t + 1),
{
    assert(given_out(runner, block_hash, txs[t].txid@, false, n) =~= given_out(
        before,
        block_hash,
        txs[t].txid@,
        among_first(txs, t, txs[t].txid@),
        n,
    ));
    assert forall|h: Seq<u8>, i: Seq<u8>| #[trigger]
        next.handed_over(h, i) == if h == block_hash && among_first(txs, t + 1, i) {
            None
        } else {
            before.handed_over(h, i)
        } by {
        assert(next.handed_over(h, i) == if h == block_hash && i == txs[t].txid@ {
            None
        } else {
            runner.handed_over(h, i)
        });
        if among_first(txs, t, i) {
            let u = choose|u: int| 0 <= u < t && (#[trigger] txs[u]).txid@ == i;
            assert(txs[u].txid@ == i);
            assert(among_first(txs, t + 1, i));
        }
        if i == txs[t].txid@ {
            assert(among_first(txs, t + 1, i));
        }
        if among_first(txs, t + 1, i) && !among_first(txs, t, i) {
            let u = choose|u: int| 0 <= u < t + 1 && (#[trigger] txs[u]).txid@ == i;
            assert(u == t);
        }
    }
}

/// Whether a runner holds what it held before a transaction of a block was collected, if it was.
spec fn collected_once<P: ShieldedPool>(
    runner: BatchRunner<P>,
    before: BatchRunner<P>,
    block_hash: Seq<u8>,
    txid: Seq<u8>,
    collected: bool,
) -> bool {
    &&& runner.flushed()
    &&& runner.key_seq() == before.key_seq()
    &&& forall|h: Seq<u8>, i: Seq<u8>| #[trigger]
        runner.handed_over(h, i) == if collected && h == block_hash && i == txid {
            None
        } else {
            before.handed_over(h, i)
        }
}

/// Collects what the runners found in a transaction, in each pool once its outputs are known to be
/// readable. There is nothing to return if something in the transaction cannot be read.
fn collect_tx(
    runners: &mut BatchRunners,
    block: &CompactBlock,
    zip212: Zip212Enforcement,
    tx: &CompactTx,
) -> (r: Option<FoundInTx>)
    requires
        old(runners).flushed(),
    ensures
        r is Some <==> tx_error(block.height, *tx) is None,
        r matches Some(found) ==> {
            &&& found@.sapling == given_out(
                old(runners).sapling,
                block.hash@,
                tx.txid@,
                false,
                tx.outputs@.len(),
            )
            &&& found@.orchard == given_out(
                old(runners).orchard,
                block.hash@,
                tx.txid@,
                false,
                tx.actions@.len(),
            )
            &&& found@.ironwood == given_out(
                old(runners).ironwood,
                block.hash@,
                tx.txid@,
                false,
                tx.ironwood_actions@.len(),
            )
        },
        collected_once(
            final(runners).sapling,
            old(runners).sapling,
            block.hash@,
            tx.txid@,
            outputs_reached(*tx, NoteCommitmentTree::Sapling),
        ),
        collected_once(
            final(runners).orchard,
            old(runners).orchard,
            block.hash@,
            tx.txid@,
            outputs_reached(*tx, NoteCommitmentTree::Orchard),
        ),
        collected_once(
            final(runners).ironwood,
            old(runners).ironwood,
            block.hash@,
            tx.txid@,
            outputs_reached(*tx, NoteCommitmentTree::Ironwood),
        ),
{
    if read_spend_nfs(&tx.spends).is_err() || read_action_nfs(&tx.actions).is_err()
        || read_action_nfs(&tx.ironwood_actions).is_err() || read_outputs(
        &tx.outputs,
        zip212,
    ).is_err() {
        return None;
    }
    let sapling = collect_found(&mut runners.sapling, block.hash, tx.txid, tx.outputs.len());
    if read_actions(&tx.actions).is_err() {
        return None;
    }
    let orchard = collect_found(&mut runners.orchard, block.hash, tx.txid, tx.actions.len());
    if read_actions(&tx.ironwood_actions).is_err() {
        return None;
    }
    let ironwood = collect_found(
        &mut runners.ironwood,
        block.hash,
        tx.txid,
        tx.ironwood_actions.len(),
    );
    Some(FoundInTx { sapling, orchard, ironwood })
}

/// Nothing, for each of `n` outputs.
fn nothing_found<N>(n: usize) -> (r: Vec<Option<(N, usize)>>)
    ensures
        r@.len() == n,
        forall|i: int| 0 <= i < n ==> (#[trigger] r@[i]) is None,
{
    let mut found: Vec<Option<(N, usize)>> = Vec::new();
    while found.len() < n
        invariant
            found@.len() <= n,
            forall|i: int| 0 <= i < found@.len() ==> (#[trigger] found@[i]) is None,
        decreases n - found@.len(),
    {
        found.push(None);
    }
    found
}

/// Collects what the runners found in the transactions of a block, as far as they can be read. In
/// the others nothing is found.
fn collect_block(runners: &mut BatchRunners, zip212: Zip212Enforcement, block: &CompactBlock) -> (r:
    Vec<FoundInTx>)
    requires
        old(runners).flushed(),
        old(runners).ironwood.key_seq().len() == old(runners).orchard.key_seq().len(),
    ensures
        collected_from(
            final(runners).sapling,
            old(runners).sapling,
            block.hash@,
            block.vtx@,
            txs_reached(block.height, block.vtx@, NoteCommitmentTree::Sapling) as int,
        ),
        collected_from(
            final(runners).orchard,
            old(runners).orchard,
            block.hash@,
            block.vtx@,
            txs_reached(block.height, block.vtx@, NoteCommitmentTree::Orchard) as int,
        ),
        collected_from(
            final(runners).ironwood,
            old(runners).ironwood,
            block.hash@,
            block.vtx@,
            txs_reached(block.height, block.vtx@, NoteCommitmentTree::Ironwood) as int,
        ),
        r@.len() == block.vtx@.len(),
        forall|t: int|
            #![trigger r@[t]]
            0 <= t < r@.len() ==> found_in(
                r@[t]@,
                block.vtx@[t],
                old(runners).sapling.key_seq().len(),
                old(runners).orchard.key_seq().len(),
            ),
        forall|t: int|
            #![trigger r@[t]]
            0 <= t < txs_read(block.height, block.vtx@) ==> r@[t]@ == runners_give(
                *old(runners),
                block.hash@,
                block.vtx@,
                t,
            ),
{
    let ghost before = *runners;
    let ghost txs = block.vtx@;
    let mut all: Vec<FoundInTx> = Vec::new();
    let mut stopped: bool = false;
    while all.len() < block.vtx.len() && !stopped
        invariant
            txs == block.vtx@,
            all@.len() <= txs.len(),
            forall|t: int|
                0 <= t < all@.len() ==> tx_error(block.height, #[trigger] txs[t]) is None,
            forall|t: int|
                #![trigger all@[t]]
                0 <= t < all@.len() ==> all@[t]@ == runners_give(before, block.hash@, txs, t),
            runners.flushed(),
            stopped ==> all@.len() < txs.len() && tx_error(block.height, txs[all@.len() as int])
                is Some,
            collected_from(
                runners.sapling,
                before.sapling,
                block.hash@,
                txs,
                if stopped {
                    txs_reached(block.height, txs, NoteCommitmentTree::Sapling) as int
                } else {
                    all@.len() as int
                },
            ),
            collected_from(
                runners.orchard,
                before.orchard,
                block.hash@,
                txs,
                if stopped {
                    txs_reached(block.height, txs, NoteCommitmentTree::Orchard) as int
                } else {
                    all@.len() as int
                },
            ),
            collected_from(
                runners.ironwood,
                before.ironwood,
                block.hash@,
                txs,
                if stopped {
                    txs_reached(block.height, txs, NoteCommitmentTree::Ironwood) as int
                } else {
                    all@.len() as int
                },
            ),
        decreases
                block.vtx.len() - all@.len(),
                if stopped {
                    0int
                } else {
                    1int
                },
    {
        let t: usize = all.len();
        let tx = &block.vtx[t];
        let ghost earlier = *runners;
        let found = collect_tx(runners, block, zip212, tx);
        proof {
            if outputs_reached(*tx, NoteCommitmentTree::Sapling) {
                lemma_collected_from(
                    earlier.sapling,
                    before.sapling,
                    runners.sapling,
                    block.hash@,
                    txs,
                    t as int,
                    tx.outputs@.len(),
                );
            }
            if outputs_reached(*tx, NoteCommitmentTree::Orchard) {
                lemma_collected_from(
                    earlier.orchard,
                    before.orchard,
                    runners.orchard,
                    block.hash@,
                    txs,
                    t as int,
                    tx.actions@.len(),
                );
            }
            if outputs_reached(*tx, NoteCommitmentTree::Ironwood) {
                lemma_collected_from(
                    earlier.ironwood,
                    before.ironwood,
                    runners.ironwood,
                    block.hash@,
                    txs,
                    t as int,
                    tx.ironwood_actions@.len(),
                );
            }
        }
        match found {
            Some(found) => {
                all.push(found);
            },
            None => {
                proof {
                    lemma_txs_read_is(block.height, txs, t as int);
                }
                stopped = true;
            },
        }
    }
    proof {
        lemma_txs_read_is(block.height, txs, all@.len() as int);
        assert forall|t: int| #![trigger all@[t]] 0 <= t < all@.len() implies found_in(
            all@[t]@,
            txs[t],
            before.sapling.key_seq().len(),
            before.orchard.key_seq().len(),
        ) by {
            let tx = txs[t];
            let collected = among_first(txs, t, tx.txid@);
            lemma_given_out_fits(
                before.sapling,
                block.hash@,
                tx.txid@,
                collected,
                tx.outputs@.len(),
            );
            lemma_given_out_fits(
                before.orchard,
                block.hash@,
                tx.txid@,
                collected,
                tx.actions@.len(),
            );
            lemma_given_out_fits(
                before.ironwood,
                block.hash@,
                tx.txid@,
                collected,
                tx.ironwood_actions@.len(),
            );
        }
    }
    let ghost read = all@.len();
    while all.len() < block.vtx.len()
        invariant
            txs == block.vtx@,
            read == txs_read(block.height, txs),
            read <= all@.len() <= txs.len(),
            forall|t: int|
                #![trigger all@[t]]
                0 <= t < read ==> all@[t]@ == runners_give(before, block.hash@, txs, t),
            forall|t: int|
                #![trigger all@[t]]
                0 <= t < all@.len() ==> found_in(
                    all@[t]@,
                    txs[t],
                    before.sapling.key_seq().len(),
                    before.orchard.key_seq().len(),
                ),
        decreases block.vtx.len() - all@.len(),
    {
        let tx = &block.vtx[all.len()];
        all.push(
            FoundInTx {
                sapling: nothing_found(tx.outputs.len()),
                orchard: nothing_found(tx.actions.len()),
                ironwood: nothing_found(tx.ironwood_actions.len()),
            },
        );
    }
    all
}

/// How many transactions of a block there are whose outputs in a pool are reached by scanning it.
pub open spec fn txs_reached_in(
    params: Params,
    block: CompactBlock,
    prior: Option<BlockMetadata>,
    tree: NoteCommitmentTree,
) -> nat {
    if continuity_error(block, prior) is Some || PositionTracker::at_start(params, block, prior)
        is Err {
        0
    } else {
        txs_reached(block.height, block.vtx@, tree)
    }
}

/// Whether runners hold what they held before a block was scanned, except what was found in the
/// outputs of the block that were reached.
pub open spec fn runners_after(
    runners: BatchRunners,
    before: BatchRunners,
    params: Params,
    block: CompactBlock,
    prior: Option<BlockMetadata>,
) -> bool {
    &&& collected_from(
        runners.sapling,
        before.sapling,
        block.hash@,
        block.vtx@,
        txs_reached_in(params, block, prior, NoteCommitmentTree::Sapling) as int,
    )
    &&& collected_from(
        runners.orchard,
        before.orchard,
        block.hash@,
        block.vtx@,
        txs_reached_in(params, block, prior, NoteCommitmentTree::Orchard) as int,
    )
    &&& collected_from(
        runners.ironwood,
        before.ironwood,
        block.hash@,
        block.vtx@,
        txs_reached_in(params, block, prior, NoteCommitmentTree::Ironwood) as int,
    )
}

/// Scans a block with the given keys. Where batch runners are given, the notes are those that
/// they found in the outputs that were handed over to them; they must try the same keys, and must
/// have been flushed. What they give out for a transaction they forget, and they keep what they
/// found in outputs that were not reached and in other blocks.
pub fn scan_block_with_runners(
    params: &Params,
    block: &CompactBlock,
    scanning_keys: &ScanningKeys,
    nullifiers: &Nullifiers,
    prior_block_metadata: Option<&BlockMetadata>,
    batch_runners: Option<&mut BatchRunners>,
) -> (r: Result<ScannedBlock, ScanError>)
    requires
        forall|t: int| 0 <= t < block.vtx@.len() ==> actions_countable(#[trigger] block.vtx@[t]),
        batch_runners matches Some(runners) ==> runners.flushed() && runners.has_keys(
            *scanning_keys,
        ),
    ensures
        scan_result(
            r,
            *block,
            scan_outcome(
                *params,
                *block,
                *scanning_keys,
                *nullifiers,
                given(prior_block_metadata),
                match batch_runners {
                    Some(runners) => runners_give_all(*runners, block.hash@, block.vtx@),
                    None => context_of(*params, *block, *scanning_keys, *nullifiers).finds_in_all(
                        block.vtx@,
                    ),
                },
            ),
        ),
        r matches Ok(scanned) ==> all_change_told(scanned.transactions@),
        batch_runners matches Some(runners) ==> {
            &&& runners_after(
                *final(runners),
                *runners,
                *params,
                *block,
                given(prior_block_metadata),
            )
            &&& final(runners).flushed()
            &&& final(runners).has_keys(*scanning_keys)
        },
{
    match batch_runners {
        None => scan_block(params, block, scanning_keys, nullifiers, prior_block_metadata),
        Some(runners) => {
            let ghost before = *runners;
            if let Some(e) = check_hash_continuity(block, prior_block_metadata) {
                return Err(e);
            }
            if let Err(e) = PositionTracker::for_compact_block(params, block, prior_block_metadata) {
                return Err(e);
            }
            let zip212 = params.zip212_enforcement(block.height);
            let found = collect_block(runners, zip212, block);
            proof {
                let ctx = context_of(*params, *block, *scanning_keys, *nullifiers);
                let given_out = runners_give_all(before, block.hash@, block.vtx@);
                if let Ok(tracker) = PositionTracker::at_start(
                    *params,
                    *block,
                    given(prior_block_metadata),
                ) {
                    lemma_txs_read(ctx, tracker, block.vtx@, given_out);
                    assert forall|t: int|
                        0 <= t < txs_read(ctx.height, block.vtx@) implies #[trigger] views(
                        found@,
                    )[t] == given_out[t] by {
                        assert(found@[t]@ == runners_give(before, block.hash@, block.vtx@, t));
                    }
                    lemma_found_agree(ctx, tracker, block.vtx@, views(found@), given_out);
                }
            }
            scan_block_with_found(
                params,
                block,
                scanning_keys,
                nullifiers,
                prior_block_metadata,
                &found,
            )
        },
    }
}

/// Scanning a block with batch runners that its outputs were handed over to comes to the same as
/// scanning it without, if no two of its transactions have the same identifier.
pub proof fn lemma_batches_change_nothing(
    params: Params,
    block: CompactBlock,
    keys: ScanningKeys,
    nullifiers: Nullifiers,
    prior: Option<BlockMetadata>,
    before: BatchRunners,
    runners: BatchRunners,
)
    requires
        runners.has_keys(keys),
        runners.holds_beside(
            before,
            block.hash@,
            block.vtx@,
            params.zip212_rule(block.height),
        ),
        forall|t: int, u: int|
            0 <= t < u < block.vtx@.len() ==> (#[trigger] block.vtx@[t]).txid@ != (
            #[trigger] block.vtx@[u]).txid@,
    ensures
        scan_outcome(
            params,
            block,
            keys,
            nullifiers,
            prior,
            runners_give_all(runners, block.hash@, block.vtx@),
        ) == scan_outcome(
            params,
            block,
            keys,
            nullifiers,
            prior,
            context_of(params, block, keys, nullifiers).finds_in_all(block.vtx@),
        ),
{
    let ctx = context_of(params, block, keys, nullifiers);
    let txs = block.vtx@;
    let a = runners_give_all(runners, block.hash@, txs);
    let b = ctx.finds_in_all(txs);
    assert forall|t: int| 0 <= t < txs.len() implies a[t] == b[t] by {
        let tx = txs[t];
        lemma_last_under(txs, t);
        assert(!among_first(txs, t, tx.txid@));
        assert(runners.sapling.handed_over(block.hash@, tx.txid@) == Some(
            output_parts(tx.outputs@, ctx.zip212),
        ));
        assert(a[t].sapling =~= b[t].sapling);
        assert(a[t].orchard =~= b[t].orchard);
        assert(a[t].ironwood =~= b[t].ironwood);
    }
    assert(a =~= b);
}

/// Scanning a block takes nothing from another block that was handed over to the same runners:
/// scanning that one after it still comes to the same as scanning it without them, if no two of
/// its transactions have the same identifier.
pub proof fn lemma_other_blocks_kept(
    params: Params,
    block: CompactBlock,
    prior: Option<BlockMetadata>,
    other: CompactBlock,
    other_prior: Option<BlockMetadata>,
    keys: ScanningKeys,
    nullifiers: Nullifiers,
    empty: BatchRunners,
    before: BatchRunners,
    runners: BatchRunners,
)
    requires
        before.has_keys(keys),
        before.holds_beside(empty, other.hash@, other.vtx@, params.zip212_rule(other.height)),
        runners_after(runners, before, params, block, prior),
        other.hash@ != block.hash@,
        forall|t: int, u: int|
            0 <= t < u < other.vtx@.len() ==> (#[trigger] other.vtx@[t]).txid@ != (
            #[trigger] other.vtx@[u]).txid@,
    ensures
        scan_outcome(
            params,
            other,
            keys,
            nullifiers,
            other_prior,
            runners_give_all(runners, other.hash@, other.vtx@),
        ) == scan_outcome(
            params,
            other,
            keys,
            nullifiers,
            other_prior,
            context_of(params, other, keys, nullifiers).finds_in_all(other.vtx@),
        ),
{
    assert forall|h: Seq<u8>, t: Seq<u8>| h == other.hash@ implies {
        &&& #[trigger] runners.sapling.handed_over(h, t) == before.sapling.handed_over(h, t)
        &&& #[trigger] runners.orchard.handed_over(h, t) == before.orchard.handed_over(h, t)
        &&& #[trigger] runners.ironwood.handed_over(h, t) == before.ironwood.handed_over(h, t)
    } by {}
    lemma_batches_change_nothing(params, other, keys, nullifiers, other_prior, runners, runners);
}

/// Where no two transactions have the same identifier, the last one that has an identifier is the
/// one that has it.
proof fn lemma_last_under(txs: Seq<CompactTx>, t: int)
    requires
        0 <= t < txs.len(),
        forall|t: int, u: int|
            0 <= t < u < txs.len() ==> (#[trigger] txs[t]).txid@ != (#[trigger] txs[u]).txid@,
    ensures
        last_under(txs, txs[t].txid@) == Some(txs[t]),
    decreases txs.len(),
{
    if t < txs.len() - 1 {
        assert(txs[t].txid@ != txs[txs.len() - 1].txid@);
        lemma_last_under(txs.drop_last(), t);
    }
}

/// Whether, among the first of `total` commitments of a block, exactly the last of them all is a
/// checkpoint, and is that of the block.
pub open spec fn checkpoint_at_end(
    commitments: Seq<CommitmentView>,
    total: nat,
    height: BlockHeight,
) -> bool {
    forall|i: int|
        0 <= i < commitments.len() ==> ((#[trigger] commitments[i]).retention is Checkpoint <==> i
            == total - 1) && (commitments[i].retention matches Retention::Checkpoint { id, .. }
            ==> id == height)
}

/// The commitments of one more transaction keep the checkpoint at the end.
proof fn lemma_checkpoint_step<P: ShieldedPool>(
    commitments: Seq<CommitmentView>,
    height: BlockHeight,
    outputs: Seq<<P::Output as View>::V>,
    found: Seq<Option<(P::Note, int)>>,
    total: nat,
)
    requires
        checkpoint_at_end(commitments, total, height),
        commitments.len() + outputs.len() <= total,
    ensures
        ({
            let last = commitments.len() + outputs.len() == total;
            checkpoint_at_end(
                commitments + commitments_of::<P>(height, outputs, found, last),
                total,
                height,
            )
        }),
{
    let last = commitments.len() + outputs.len() == total;
    let added = commitments_of::<P>(height, outputs, found, last);
    let all = commitments + added;
    assert forall|i: int| 0 <= i < all.len() implies ((#[trigger] all[i]).retention is Checkpoint
        <==> i == total - 1) && (all[i].retention matches Retention::Checkpoint { id, .. } ==> id
        == height) by {
        if i >= commitments.len() {
            assert(all[i] == added[i - commitments.len()]);
        } else {
            assert(all[i] == commitments[i]);
        }
    }
}

/// After the first transactions of a block, their outputs have been passed over and each has its
/// commitment, with the checkpoint at the end of the block.
proof fn lemma_commitments_so_far(
    ctx: ScanContext,
    tracker: PositionTracker,
    txs: Seq<CompactTx>,
    found: Seq<FoundView>,
    n: int,
)
    requires
        0 <= n <= txs.len(),
        tracker.before(txs),
        after_txs(ctx, tracker, txs.take(n), found) is Ok,
    ensures
        after_txs(ctx, tracker, txs.take(n), found) matches Ok(st) ==> {
            &&& st.tracker.before(txs.skip(n))
            &&& st.tracker.sapling_final_tree_size == tracker.sapling_final_tree_size
            &&& st.tracker.orchard_final_tree_size == tracker.orchard_final_tree_size
            &&& st.tracker.ironwood_final_tree_size == tracker.ironwood_final_tree_size
            &&& st.sapling.commitments.len() == st.tracker.sapling_tree_position
                - tracker.sapling_tree_position
            &&& st.orchard.commitments.len() == st.tracker.orchard_tree_position
                - tracker.orchard_tree_position
            &&& st.ironwood.commitments.len() == st.tracker.ironwood_tree_position
                - tracker.ironwood_tree_position
            &&& checkpoint_at_end(
                st.sapling.commitments,
                NoteCommitmentTree::Sapling.outputs_of(txs),
                ctx.height,
            )
            &&& checkpoint_at_end(
                st.orchard.commitments,
                NoteCommitmentTree::Orchard.outputs_of(txs),
                ctx.height,
            )
            &&& checkpoint_at_end(
                st.ironwood.commitments,
                NoteCommitmentTree::Ironwood.outputs_of(txs),
                ctx.height,
            )
        },
    decreases n,
{
    if n == 0 {
        assert(txs.take(0) =~= Seq::empty());
        assert(txs.skip(0) =~= txs);
    } else {
        let first = txs.take(n);
        assert(first.drop_last() =~= txs.take(n - 1));
        lemma_commitments_so_far(ctx, tracker, txs, found, n - 1);
        let st = after_txs(ctx, tracker, txs.take(n - 1), found)->Ok_0;
        let tx = txs[n - 1];
        let rest = txs.skip(n - 1);
        assert(rest[0] == tx);
        assert(rest.skip(1) =~= txs.skip(n));
        lemma_tracker_advances(st.tracker, rest);
        let s = NoteCommitmentTree::Sapling;
        let o = NoteCommitmentTree::Orchard;
        let i = NoteCommitmentTree::Ironwood;
        assert(tracker.position(s) + s.outputs_of(txs) == tracker.final_size(s));
        assert(tracker.position(o) + o.outputs_of(txs) == tracker.final_size(o));
        assert(tracker.position(i) + i.outputs_of(txs) == tracker.final_size(i));
        assert(st.tracker.position(s) + s.outputs_in(tx) <= st.tracker.final_size(s));
        assert(st.tracker.position(o) + o.outputs_in(tx) <= st.tracker.final_size(o));
        assert(st.tracker.position(i) + i.outputs_in(tx) <= st.tracker.final_size(i));
        let part = found[n - 1];
        lemma_checkpoint_step::<SaplingPool>(
            st.sapling.commitments,
            ctx.height,
            output_parts(tx.outputs@, ctx.zip212),
            part.sapling,
            s.outputs_of(txs),
        );
        lemma_checkpoint_step::<OrchardPool>(
            st.orchard.commitments,
            ctx.height,
            action_parts(tx.actions@),
            part.orchard,
            o.outputs_of(txs),
        );
        lemma_checkpoint_step::<IronwoodPool>(
            st.ironwood.commitments,
            ctx.height,
            action_parts(tx.ironwood_actions@),
            part.ironwood,
            i.outputs_of(txs),
        );
    }
}

/// A block that is scanned adds exactly its own outputs to each tree, and among their commitments
/// the last one, and no other, is the checkpoint of the block.
pub proof fn lemma_one_checkpoint(
    params: Params,
    block: CompactBlock,
    keys: ScanningKeys,
    nullifiers: Nullifiers,
    prior: Option<BlockMetadata>,
    found: Seq<FoundView>,
)
    ensures
        scan_outcome(params, block, keys, nullifiers, prior, found) matches Ok(st) ==> {
            &&& st.sapling.commitments.len() == NoteCommitmentTree::Sapling.outputs_of(block.vtx@)
            &&& st.orchard.commitments.len() == NoteCommitmentTree::Orchard.outputs_of(block.vtx@)
            &&& st.ironwood.commitments.len() == NoteCommitmentTree::Ironwood.outputs_of(block.vtx@)
            &&& checkpoint_at_end(
                st.sapling.commitments,
                st.sapling.commitments.len(),
                block.height,
            )
            &&& checkpoint_at_end(
                st.orchard.commitments,
                st.orchard.commitments.len(),
                block.height,
            )
            &&& checkpoint_at_end(
                st.ironwood.commitments,
                st.ironwood.commitments.len(),
                block.height,
            )
        },
{
    if let Ok(st) = scan_outcome(params, block, keys, nullifiers, prior, found) {
        let ctx = context_of(params, block, keys, nullifiers);
        let tracker = PositionTracker::at_start(params, block, prior)->Ok_0;
        let txs = block.vtx@;
        lemma_start_is_before(params, block, prior);
        assert(txs.take(txs.len() as int) =~= txs);
        lemma_commitments_so_far(ctx, tracker, txs, found, txs.len() as int);
        assert(txs.skip(txs.len() as int) =~= Seq::empty());
        let s = NoteCommitmentTree::Sapling;
        let o = NoteCommitmentTree::Orchard;
        let i = NoteCommitmentTree::Ironwood;
        assert(tracker.position(s) + s.outputs_of(txs) == tracker.final_size(s));
        assert(tracker.position(o) + o.outputs_of(txs) == tracker.final_size(o));
        assert(tracker.position(i) + i.outputs_of(txs) == tracker.final_size(i));
        assert(st.tracker.position(s) + s.outputs_of(Seq::empty()) == st.tracker.final_size(s));
        assert(st.tracker.position(o) + o.outputs_of(Seq::empty()) == st.tracker.final_size(o));
        assert(st.tracker.position(i) + i.outputs_of(Seq::empty()) == st.tracker.final_size(i));
    }
}

/// The notes received by some outputs are numbered in their order, from `offset` on.
proof fn lemma_received_numbers<P: ShieldedPool>(
    keys: Seq<P::Key>,
    outputs: Seq<<P::Output as View>::V>,
    found: Seq<Option<(P::Note, int)>>,
    spends: Seq<WalletSpendView>,
    offset: nat,
    position: nat,
    n: nat,
)
    requires
        offset + n <= usize::MAX,
    ensures
        ({
            let r = received::<P>(keys, outputs, found, spends, offset, position, n);
            &&& forall|i: int| 0 <= i < r.len() ==> offset <= (#[trigger] r[i]).index < offset + n
            &&& forall|i: int, j: int|
                0 <= i < j < r.len() ==> (#[trigger] r[i]).index < (#[trigger] r[j]).index
        }),
    decreases n,
{
    if n > 0 {
        lemma_received_numbers::<P>(
            keys,
            outputs,
            found,
            spends,
            offset,
            position,
            (n - 1) as nat,
        );
    }
}

/// The spends found among some nullifiers are numbered in their order, from `offset` on.
proof fn lemma_spend_numbers(nfs: Seq<Seq<u8>>, known: Seq<TrackedView>, offset: nat)
    requires
        offset + nfs.len() <= usize::MAX,
    ensures
        ({
            let r = spends_of(nfs, known, offset);
            &&& forall|i: int|
                0 <= i < r.len() ==> offset <= (#[trigger] r[i]).index < offset + nfs.len()
            &&& forall|i: int, j: int|
                0 <= i < j < r.len() ==> (#[trigger] r[i]).index < (#[trigger] r[j]).index
        }),
    decreases nfs.len(),
{
    if nfs.len() > 0 {
        let before = spends_of(nfs.drop_last(), known, offset);
        lemma_spend_numbers(nfs.drop_last(), known, offset);
        assert(nfs.drop_last().len() == nfs.len() - 1);
        assert(forall|i: int|
            0 <= i < before.len() ==> offset <= (#[trigger] before[i]).index < offset + nfs.len()
                - 1);
    }
}

/// No two of the Orchard and Ironwood notes that a transaction gives to a wallet have the same
/// number, and no two of those that it spends: Ironwood actions are numbered after the Orchard
/// actions of the transaction.
pub proof fn lemma_numbers_unique(
    ctx: ScanContext,
    tracker: PositionTracker,
    tx: CompactTx,
    found: FoundView,
)
    requires
        actions_countable(tx),
    ensures
        ({
            let w = ctx.wallet_tx(tracker, tx, found);
            &&& forall|i: int, j: int|
                0 <= i < j < w.orchard_outputs.len() ==> (#[trigger] w.orchard_outputs[i]).index < (
                #[trigger] w.orchard_outputs[j]).index
            &&& forall|i: int, j: int|
                0 <= i < j < w.orchard_spends.len() ==> (#[trigger] w.orchard_spends[i]).index < (
                #[trigger] w.orchard_spends[j]).index
        }),
{
    let n = tx.actions@.len();
    let m = tx.ironwood_actions@.len();
    lemma_received_numbers::<OrchardPool>(
        ctx.orchard_keys,
        action_parts(tx.actions@),
        found.orchard,
        ctx.spends(tx),
        0,
        tracker.orchard_tree_position as nat,
        n,
    );
    lemma_received_numbers::<IronwoodPool>(
        ctx.orchard_keys,
        action_parts(tx.ironwood_actions@),
        found.ironwood,
        ctx.spends(tx),
        n,
        tracker.ironwood_tree_position as nat,
        m,
    );
    lemma_spend_numbers(action_nfs(tx.actions@), ctx.orchard_nfs, 0);
    lemma_spend_numbers(action_nfs(tx.ironwood_actions@), ctx.orchard_nfs, n);
}

} // verus!
