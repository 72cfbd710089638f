//! Trial decryption in batches, ahead of the scanning of the blocks.

use vstd::prelude::*;

use crate::consensus::BlockHeight;
use crate::consensus::Params;
use crate::consensus::Zip212Enforcement;

use super::compact::action_parts;
use super::compact::actions_valid;
use super::compact::first_unmet;
use super::compact::invalid_compact_encoding;
use super::compact::lemma_none_unmet;
use super::compact::output_parts;
use super::compact::outputs_valid;
use super::compact::read_actions;
use super::compact::read_outputs;
use super::compact::views;
use super::compact::CompactBlock;
use super::compact::CompactTx;
use super::pools::as_match;
use super::pools::first_match;
use super::pools::try_decrypt;
use super::pools::IronwoodPool;
use super::pools::OrchardPool;
use super::pools::SaplingPool;
use super::pools::ScanningKeys;
use super::pools::ShieldedPool;
use super::NoteCommitmentTree;
use super::ScanError;

verus! {

/// Whether two arrays hold the same bytes.
pub fn same_bytes(a: &[u8; 32], b: &[u8; 32]) -> (r: bool)
    ensures
        r == (a@ == b@),
{
    let mut i: usize = 0;
    while i < 32
        invariant
            i <= 32,
            forall|k: int| 0 <= k < i ==> a@[k] == b@[k],
        decreases 32 - i,
    {
        if a[i] != b[i] {
            assert(a@[i as int] != b@[i as int]);
            return false;
        }
        i = i + 1;
    }
    assert(a@ =~= b@);
    true
}

/// The outputs of a transaction that were handed over for decryption.
struct Entry<P: ShieldedPool> {
    block_hash: [u8; 32],
    txid: [u8; 32],
    outputs: Vec<P::Output>,
}

/// The outputs that were handed over, the latest last, and for each entry what was found in them,
/// once they have been tried.
struct Queue<P: ShieldedPool> {
    keys: Vec<P::Key>,
    entries: Vec<Entry<P>>,
    results: Vec<Option<Vec<Option<(P::Note, usize)>>>>,
    /// How many outputs have not been tried.
    waiting: usize,
}

/// The outputs that were handed over under a block and a transaction, the last time that any were.
spec fn lookup<P: ShieldedPool>(entries: Seq<Entry<P>>, block_hash: Seq<u8>, txid: Seq<u8>) -> Option<
    Seq<<P::Output as View>::V>,
>
    decreases entries.len(),
{
    if entries.len() == 0 {
        None
    } else if entries.last().block_hash@ == block_hash && entries.last().txid@ == txid {
        Some(views(entries.last().outputs@))
    } else {
        lookup(entries.drop_last(), block_hash, txid)
    }
}

/// What the keys find in some outputs.
pub open spec fn matches_of<P: ShieldedPool>(
    keys: Seq<P::Key>,
    outputs: Seq<<P::Output as View>::V>,
) -> Seq<Option<(P::Note, int)>> {
    Seq::new(outputs.len(), |i: int| first_match::<P>(keys, outputs[i]))
}

/// What was found, with the numbers of the keys as the numbers that they are.
pub open spec fn as_matches<N>(found: Seq<Option<(N, usize)>>) -> Seq<Option<(N, int)>> {
    found.map_values(|f: Option<(N, usize)>| as_match(f))
}

impl<P: ShieldedPool> Queue<P> {
    /// Whether the keys and the outputs can be used, and the results are what the keys find.
    spec fn wf(self) -> bool {
        &&& self.results@.len() == self.entries@.len()
        &&& forall|k: int| 0 <= k < self.keys@.len() ==> P::key_valid(#[trigger] self.keys@[k])
        &&& forall|e: int| #![trigger self.entries@[e]]
            0 <= e < self.entries@.len() ==> self.entry_wf(e)
    }

    /// Whether an entry's outputs can be used, and its results are what the keys find.
    spec fn entry_wf(self, e: int) -> bool {
        &&& forall|i: int|
            0 <= i < self.entries@[e].outputs@.len() ==> P::output_valid(
                (#[trigger] self.entries@[e].outputs@[i])@,
            )
        &&& self.results@[e] matches Some(found) ==> as_matches(found@) == matches_of::<P>(
            self.keys@,
            views(self.entries@[e].outputs@),
        )
    }

    /// Whether all outputs have been tried.
    spec fn flushed(self) -> bool {
        forall|e: int| 0 <= e < self.entries@.len() ==> (#[trigger] self.results@[e]) is Some
    }

    /// An empty queue.
    fn new(keys: Vec<P::Key>) -> (r: Queue<P>)
        requires
            forall|k: int| 0 <= k < keys@.len() ==> P::key_valid(#[trigger] keys@[k]),
        ensures
            r.wf(),
            r.flushed(),
            r.keys@ == keys@,
            r.entries@ == Seq::<Entry<P>>::empty(),
    {
        Queue { keys, entries: Vec::new(), results: Vec::new(), waiting: 0 }
    }

    /// Tries the keys on all outputs that have not been tried.
    fn flush(&mut self)
        requires
            old(self).wf(),
        ensures
            final(self).wf(),
            final(self).flushed(),
            final(self).keys == old(self).keys,
            final(self).entries == old(self).entries,
            final(self).waiting == 0,
    {
        let mut e: usize = 0;
        while e < self.entries.len()
            invariant
                self.wf(),
                self.keys == old(self).keys,
                self.entries == old(self).entries,
                e <= self.entries@.len(),
                forall|k: int| 0 <= k < e ==> (#[trigger] self.results@[k]) is Some,
            decreases self.entries@.len() - e,
        {
            if self.results[e].is_none() {
                assert(self.entry_wf(e as int)) by {
                    let entry = self.entries@[e as int];
                }
                let found = try_decrypt::<P>(&self.keys, &self.entries[e].outputs);
                let ghost before = *self;
                assert(as_matches(found@) =~= matches_of::<P>(
                    self.keys@,
                    views(self.entries@[e as int].outputs@),
                ));
                self.results.set(e, Some(found));
                assert forall|k: int| #![trigger self.entries@[k]]
                    0 <= k < self.entries@.len() implies self.entry_wf(k) by {
                    assert(before.entry_wf(k)) by {
                        let entry = before.entries@[k];
                    }
                }
            }
            e = e + 1;
        }
        self.waiting = 0;
        assert forall|k: int| #![trigger self.entries@[k]]
            0 <= k < self.entries@.len() implies self.entry_wf(k) by {}
    }

    /// Takes over the outputs of a transaction.
    fn add(&mut self, block_hash: [u8; 32], txid: [u8; 32], outputs: Vec<P::Output>)
        requires
            old(self).wf(),
            forall|i: int| 0 <= i < outputs@.len() ==> P::output_valid((#[trigger] outputs@[i])@),
        ensures
            final(self).wf(),
            final(self).keys == old(self).keys,
            forall|h: Seq<u8>, t: Seq<u8>| #[trigger]
                lookup(final(self).entries@, h, t) == if h == block_hash@ && t == txid@ {
                    Some(views(outputs@))
                } else {
                    lookup(old(self).entries@, h, t)
                },
    {
        let ghost before = *self;
        let count: usize = outputs.len();
        self.entries.push(Entry { block_hash, txid, outputs });
        self.results.push(None);
        self.waiting = match self.waiting.checked_add(count) {
            Some(waiting) => waiting,
            None => usize::MAX,
        };
        assert(self.entries@.drop_last() =~= before.entries@);
        assert forall|k: int| #![trigger self.entries@[k]]
            0 <= k < self.entries@.len() implies self.entry_wf(k) by {
            if k < before.entries@.len() {
                assert(before.entry_wf(k)) by {
                    let entry = before.entries@[k];
                }
            }
        }
    }
}

/// Whether an entry was handed over under a block and a transaction.
spec fn is_under<P: ShieldedPool>(entry: Entry<P>, block_hash: Seq<u8>, txid: Seq<u8>) -> bool {
    entry.block_hash@ == block_hash && entry.txid@ == txid
}

/// Taking away an entry does not change what was handed over under another transaction.
proof fn lemma_lookup_remove<P: ShieldedPool>(entries: Seq<Entry<P>>, e: int, h: Seq<u8>, t: Seq<u8>)
    requires
        0 <= e < entries.len(),
        !is_under(entries[e], h, t),
    ensures
        lookup(entries.remove(e), h, t) == lookup(entries, h, t),
    decreases entries.len(),
{
    let rest = entries.remove(e);
    if e == entries.len() - 1 {
        assert(rest =~= entries.drop_last());
    } else {
        lemma_lookup_remove(entries.drop_last(), e, h, t);
        assert(rest.drop_last() =~= entries.drop_last().remove(e));
        assert(rest.last() == entries.last());
    }
}

/// Nothing was handed over under a transaction that no entry is under.
proof fn lemma_lookup_none<P: ShieldedPool>(entries: Seq<Entry<P>>, h: Seq<u8>, t: Seq<u8>)
    requires
        forall|e: int| 0 <= e < entries.len() ==> !is_under(#[trigger] entries[e], h, t),
    ensures
        lookup(entries, h, t) is None,
    decreases entries.len(),
{
    if entries.len() > 0 {
        assert(!is_under(entries[entries.len() - 1], h, t));
        lemma_lookup_none(entries.drop_last(), h, t);
    }
}

impl<P: ShieldedPool> Queue<P> {
    /// Gives out what was found in the outputs of a transaction, and forgets them.
    fn collect(&mut self, block_hash: [u8; 32], txid: [u8; 32]) -> (r: Option<
        Vec<Option<(P::Note, usize)>>,
    >)
        requires
            old(self).wf(),
            old(self).flushed(),
        ensures
            final(self).wf(),
            final(self).flushed(),
            final(self).keys == old(self).keys,
            match lookup(old(self).entries@, block_hash@, txid@) {
                None => r is None,
                Some(outputs) => r matches Some(found) && as_matches(found@) == matches_of::<P>(
                    old(self).keys@,
                    outputs,
                ),
            },
            forall|h: Seq<u8>, t: Seq<u8>| #[trigger]
                lookup(final(self).entries@, h, t) == if h == block_hash@ && t == txid@ {
                    None
                } else {
                    lookup(old(self).entries@, h, t)
                },
    {
        let mut taken: Option<Vec<Option<(P::Note, usize)>>> = None;
        let mut e: usize = 0;
        let ghost mut passed: int = 0;
        let ghost all = self.entries@;
        let ghost keys = self.keys@;
        assert(all.skip(0) =~= all);
        while e < self.entries.len()
            invariant
                self.wf(),
                self.flushed(),
                self.keys == old(self).keys,
                keys == self.keys@,
                all == old(self).entries@,
                e <= self.entries@.len(),
                e <= passed <= all.len(),
                self.entries@.skip(e as int) == all.skip(passed),
                self.entries@.len() - e == all.len() - passed,
                forall|k: int|
                    0 <= k < e ==> !is_under(#[trigger] self.entries@[k], block_hash@, txid@),
                match lookup(all.take(passed), block_hash@, txid@) {
                    None => taken is None,
                    Some(outputs) => taken matches Some(found) && as_matches(found@)
                        == matches_of::<P>(keys, outputs),
                },
                forall|h: Seq<u8>, t: Seq<u8>|
                    !(h == block_hash@ && t == txid@) ==> #[trigger] lookup(self.entries@, h, t)
                        == lookup(all, h, t),
            decreases self.entries@.len() - e,
        {
            let ghost before = *self;
            proof {
                assert(self.entries@[e as int] == self.entries@.skip(e as int)[0]);
                assert(all[passed] == all.skip(passed)[0]);
                assert(all.take(passed + 1).drop_last() =~= all.take(passed));
                assert(self.entry_wf(e as int)) by {
                    let entry = self.entries@[e as int];
                }
            }
            let under: bool = same_bytes(&self.entries[e].block_hash, &block_hash) && same_bytes(
                &self.entries[e].txid,
                &txid,
            );
            if under {
                let _entry = self.entries.remove(e);
                taken = self.results.remove(e);
                proof {
                    assert(self.entries@.skip(e as int) =~= all.skip(passed + 1)) by {
                        assert(self.entries@.skip(e as int) =~= before.entries@.skip(
                            e as int,
                        ).skip(1));
                        assert(all.skip(passed).skip(1) =~= all.skip(passed + 1));
                    }
                    assert forall|k: int| #![trigger self.entries@[k]]
                        0 <= k < self.entries@.len() implies self.entry_wf(k) by {
                        let from = if k < e { k } else { k + 1 };
                        assert(before.entry_wf(from)) by {
                            let entry = before.entries@[from];
                        }
                        assert(self.entries@[k] == before.entries@[from]);
                        assert(self.results@[k] == before.results@[from]);
                    }
                    assert forall|k: int| 0 <= k < self.entries@.len() implies (
                    #[trigger] self.results@[k]) is Some by {
                        let from = if k < e { k } else { k + 1 };
                        assert(self.results@[k] == before.results@[from]);
                    }
                    assert forall|h: Seq<u8>, t: Seq<u8>|
                        !(h == block_hash@ && t == txid@) implies #[trigger] lookup(
                        self.entries@,
                        h,
                        t,
                    ) == lookup(all, h, t) by {
                        lemma_lookup_remove(before.entries@, e as int, h, t);
                        assert(self.entries@ =~= before.entries@.remove(e as int));
                        assert(lookup(before.entries@, h, t) == lookup(all, h, t));
                    }
                    assert(before.results@[e as int] is Some);
                }
            } else {
                proof {
                    assert(self.entries@.skip(e as int + 1) =~= all.skip(passed + 1)) by {
                        assert(self.entries@.skip(e as int).skip(1) =~= self.entries@.skip(
                            e as int + 1,
                        ));
                        assert(all.skip(passed).skip(1) =~= all.skip(passed + 1));
                    }
                }
                e = e + 1;
            }
            proof {
                passed = passed + 1;
            }
        }
        proof {
            assert(all.take(passed) =~= all);
            lemma_lookup_none(self.entries@, block_hash@, txid@);
        }
        taken
    }
}

/// Trial decryption of the outputs of one pool in batches.
pub struct BatchRunner<P: ShieldedPool> {
    batch_size_threshold: usize,
    queue: Queue<P>,
}

impl<P: ShieldedPool> BatchRunner<P> {
    #[verifier::type_invariant]
    spec fn valid(self) -> bool {
        self.queue.wf()
    }

    /// The keys that are tried.
    pub closed spec fn key_seq(self) -> Seq<P::Key> {
        self.queue.keys@
    }

    /// The outputs that were handed over under a block and a transaction, the last time that any
    /// were, as long as they have not been collected.
    pub closed spec fn handed_over(self, block_hash: Seq<u8>, txid: Seq<u8>) -> Option<
        Seq<<P::Output as View>::V>,
    > {
        lookup(self.queue.entries@, block_hash, txid)
    }

    /// Whether all outputs that were handed over have been tried.
    pub closed spec fn flushed(self) -> bool {
        self.queue.flushed()
    }

    /// A runner that tries the given keys as soon as so many outputs have been handed over.
    pub(crate) fn new(batch_size_threshold: usize, keys: Vec<P::Key>) -> (r: BatchRunner<P>)
        requires
            forall|k: int| 0 <= k < keys@.len() ==> P::key_valid(#[trigger] keys@[k]),
        ensures
            r.key_seq() == keys@,
            r.flushed(),
            forall|h: Seq<u8>, t: Seq<u8>| #[trigger] r.handed_over(h, t) is None,
    {
        BatchRunner { batch_size_threshold, queue: Queue::new(keys) }
    }

    /// Hands over the outputs of a transaction. They are tried as soon as enough outputs wait.
    pub(crate) fn add_outputs(
        &mut self,
        block_hash: [u8; 32],
        txid: [u8; 32],
        outputs: Vec<P::Output>,
    )
        requires
            forall|i: int| 0 <= i < outputs@.len() ==> P::output_valid((#[trigger] outputs@[i])@),
        ensures
            final(self).key_seq() == old(self).key_seq(),
            forall|h: Seq<u8>, t: Seq<u8>| #[trigger]
                final(self).handed_over(h, t) == if h == block_hash@ && t == txid@ {
                    Some(views(outputs@))
                } else {
                    old(self).handed_over(h, t)
                },
    {
        proof {
            use_type_invariant(&*self);
        }
        let mut queue: Queue<P> = Queue::new(Vec::new());
        std::mem::swap(&mut queue, &mut self.queue);
        queue.add(block_hash, txid, outputs);
        if queue.waiting >= self.batch_size_threshold {
            queue.flush();
        }
        self.queue = queue;
    }

    /// Tries the keys on all outputs that have not been tried.
    pub fn flush(&mut self)
        ensures
            final(self).key_seq() == old(self).key_seq(),
            final(self).flushed(),
            forall|h: Seq<u8>, t: Seq<u8>| #[trigger]
                final(self).handed_over(h, t) == old(self).handed_over(h, t),
    {
        proof {
            use_type_invariant(&*self);
        }
        let mut queue: Queue<P> = Queue::new(Vec::new());
        std::mem::swap(&mut queue, &mut self.queue);
        queue.flush();
        self.queue = queue;
    }

    /// Gives out what was found in the outputs of a transaction, and forgets them. There is
    /// nothing to give out if nothing was handed over.
    pub fn collect_results(&mut self, block_hash: [u8; 32], txid: [u8; 32]) -> (r: Option<
        Vec<Option<(P::Note, usize)>>,
    >)
        requires
            old(self).flushed(),
        ensures
            final(self).key_seq() == old(self).key_seq(),
            final(self).flushed(),
            match old(self).handed_over(block_hash@, txid@) {
                None => r is None,
                Some(outputs) => r matches Some(found) && as_matches(found@) == matches_of::<P>(
                    old(self).key_seq(),
                    outputs,
                ),
            },
            forall|h: Seq<u8>, t: Seq<u8>| #[trigger]
                final(self).handed_over(h, t) == if h == block_hash@ && t == txid@ {
                    None
                } else {
                    old(self).handed_over(h, t)
                },
    {
        proof {
            use_type_invariant(&*self);
        }
        let mut queue: Queue<P> = Queue::new(Vec::new());
        std::mem::swap(&mut queue, &mut self.queue);
        let found = queue.collect(block_hash, txid);
        self.queue = queue;
        found
    }
}

/// Trial decryption of the outputs of all pools in batches.
pub struct BatchRunners {
    pub sapling: BatchRunner<SaplingPool>,
    pub orchard: BatchRunner<OrchardPool>,
    pub ironwood: BatchRunner<IronwoodPool>,
}

/// The first item of a transaction, among its Sapling outputs, then its Orchard actions, then its
/// Ironwood actions, that cannot be read, and the error that reports it.
pub open spec fn reading_error(at_height: BlockHeight, tx: CompactTx) -> Option<ScanError> {
    let txid = tx.txid;
    match first_unmet(outputs_valid(tx.outputs@)) {
        Some(index) => Some(
            ScanError::EncodingInvalid { at_height, txid, tree: NoteCommitmentTree::Sapling, index },
        ),
        None => match first_unmet(actions_valid(tx.actions@)) {
            Some(index) => Some(
                ScanError::EncodingInvalid {
                    at_height,
                    txid,
                    tree: NoteCommitmentTree::Orchard,
                    index,
                },
            ),
            None => match first_unmet(actions_valid(tx.ironwood_actions@)) {
                Some(index) => Some(
                    ScanError::EncodingInvalid {
                        at_height,
                        txid,
                        tree: NoteCommitmentTree::Ironwood,
                        index,
                    },
                ),
                None => None,
            },
        },
    }
}

/// The first item of some transactions that cannot be read, and the error that reports it.
pub open spec fn first_reading_error(at_height: BlockHeight, txs: Seq<CompactTx>) -> Option<ScanError>
    decreases txs.len(),
{
    if txs.len() == 0 {
        None
    } else {
        match first_reading_error(at_height, txs.drop_last()) {
            Some(e) => Some(e),
            None => reading_error(at_height, txs.last()),
        }
    }
}

/// How many of some transactions come before the first one with an item that cannot be read.
pub open spec fn txs_readable(at_height: BlockHeight, txs: Seq<CompactTx>) -> nat
    decreases txs.len(),
{
    if txs.len() == 0 {
        0
    } else {
        let before = txs_readable(at_height, txs.drop_last());
        if before == txs.len() - 1 && reading_error(at_height, txs.last()) is None {
            txs.len()
        } else {
            before
        }
    }
}

/// Whether the outputs of a transaction in a pool can be read, and those in the pools before.
pub open spec fn outputs_readable(tx: CompactTx, tree: NoteCommitmentTree) -> bool {
    &&& first_unmet(outputs_valid(tx.outputs@)) is None
    &&& !(tree is Sapling) ==> first_unmet(actions_valid(tx.actions@)) is None
    &&& tree is Ironwood ==> first_unmet(actions_valid(tx.ironwood_actions@)) is None
}

/// The transactions whose outputs in a pool come before the first item that cannot be read.
pub open spec fn readable_in(
    at_height: BlockHeight,
    txs: Seq<CompactTx>,
    tree: NoteCommitmentTree,
) -> Seq<CompactTx> {
    let n = txs_readable(at_height, txs) as int;
    if n < txs.len() && outputs_readable(txs[n], tree) {
        txs.take(n + 1)
    } else {
        txs.take(n)
    }
}

/// Where all transactions before one can be read and it cannot be, or there is none left, they are
/// those that can be read.
proof fn lemma_txs_readable(at_height: BlockHeight, txs: Seq<CompactTx>, n: int)
    requires
        0 <= n <= txs.len(),
        first_reading_error(at_height, txs.take(n)) is None,
        n < txs.len() ==> reading_error(at_height, txs[n]) is Some,
    ensures
        txs_readable(at_height, txs) == n,
    decreases txs.len(),
{
    if txs.len() > 0 {
        let before = txs.drop_last();
        if n < txs.len() {
            assert(before.take(n) =~= txs.take(n));
            lemma_txs_readable(at_height, before, n);
        } else {
            assert(txs.take(n) =~= txs);
            assert(before.take(n - 1) =~= before);
            lemma_txs_readable(at_height, before, n - 1);
        }
    }
}

/// The last of some transactions that has the given identifier.
pub open spec fn last_under(txs: Seq<CompactTx>, txid: Seq<u8>) -> Option<CompactTx>
    decreases txs.len(),
{
    if txs.len() == 0 {
        None
    } else if txs.last().txid@ == txid {
        Some(txs.last())
    } else {
        last_under(txs.drop_last(), txid)
    }
}

/// An error at one of the transactions is an error of all of them.
proof fn lemma_reading_error_kept(at_height: BlockHeight, txs: Seq<CompactTx>, n: int)
    requires
        0 <= n <= txs.len(),
        first_reading_error(at_height, txs.take(n)) is Some,
    ensures
        first_reading_error(at_height, txs) == first_reading_error(at_height, txs.take(n)),
    decreases txs.len(),
{
    if n < txs.len() {
        assert(txs.drop_last().take(n) =~= txs.take(n));
        lemma_reading_error_kept(at_height, txs.drop_last(), n);
    } else {
        assert(txs.take(n) =~= txs);
    }
}

impl BatchRunners {
    /// Whether the runners try the given keys.
    pub open spec fn has_keys(self, keys: ScanningKeys) -> bool {
        &&& self.sapling.key_seq() == keys.sapling_seq()
        &&& self.orchard.key_seq() == keys.orchard_seq()
        &&& self.ironwood.key_seq() == keys.orchard_seq()
    }

    /// Whether all outputs that were handed over have been tried.
    pub open spec fn flushed(self) -> bool {
        self.sapling.flushed() && self.orchard.flushed() && self.ironwood.flushed()
    }

    /// Whether the runners hold what `before` held, and beside it the outputs of the given
    /// transactions of a block.
    pub open spec fn holds_beside(
        self,
        before: BatchRunners,
        block_hash: Seq<u8>,
        txs: Seq<CompactTx>,
        zip212: Zip212Enforcement,
    ) -> bool {
        forall|h: Seq<u8>, t: Seq<u8>|
            #![trigger self.sapling.handed_over(h, t)]
            #![trigger self.orchard.handed_over(h, t)]
            #![trigger self.ironwood.handed_over(h, t)]
            match (h == block_hash, last_under(txs, t)) {
                (true, Some(tx)) => {
                    &&& self.sapling.handed_over(h, t) == Some(output_parts(tx.outputs@, zip212))
                    &&& self.orchard.handed_over(h, t) == Some(action_parts(tx.actions@))
                    &&& self.ironwood.handed_over(h, t) == Some(
                        action_parts(tx.ironwood_actions@),
                    )
                },
                _ => {
                    &&& self.sapling.handed_over(h, t) == before.sapling.handed_over(h, t)
                    &&& self.orchard.handed_over(h, t) == before.orchard.handed_over(h, t)
                    &&& self.ironwood.handed_over(h, t) == before.ironwood.handed_over(h, t)
                },
            }
    }

    /// Whether the runners hold what `before` held, and beside it the outputs of transactions of a
    /// block, those of each pool of the transactions given for it.
    pub open spec fn holds_each_beside(
        self,
        before: BatchRunners,
        block_hash: Seq<u8>,
        sapling: Seq<CompactTx>,
        orchard: Seq<CompactTx>,
        ironwood: Seq<CompactTx>,
        zip212: Zip212Enforcement,
    ) -> bool {
        &&& forall|h: Seq<u8>, t: Seq<u8>| #[trigger]
            self.sapling.handed_over(h, t) == match (h == block_hash, last_under(sapling, t)) {
                (true, Some(tx)) => Some(output_parts(tx.outputs@, zip212)),
                _ => before.sapling.handed_over(h, t),
            }
        &&& forall|h: Seq<u8>, t: Seq<u8>| #[trigger]
            self.orchard.handed_over(h, t) == match (h == block_hash, last_under(orchard, t)) {
                (true, Some(tx)) => Some(action_parts(tx.actions@)),
                _ => before.orchard.handed_over(h, t),
            }
        &&& forall|h: Seq<u8>, t: Seq<u8>| #[trigger]
            self.ironwood.handed_over(h, t) == match (h == block_hash, last_under(ironwood, t)) {
                (true, Some(tx)) => Some(action_parts(tx.ironwood_actions@)),
                _ => before.ironwood.handed_over(h, t),
            }
    }

    /// Runners that try the given keys as soon as so many outputs of a pool have been handed over.
    pub fn for_keys(batch_size_threshold: usize, scanning_keys: &ScanningKeys) -> (r: BatchRunners)
        ensures
            r.has_keys(*scanning_keys),
            r.flushed(),
            forall|h: Seq<u8>, t: Seq<u8>| #[trigger] r.sapling.handed_over(h, t) is None,
            forall|h: Seq<u8>, t: Seq<u8>| #[trigger] r.orchard.handed_over(h, t) is None,
            forall|h: Seq<u8>, t: Seq<u8>| #[trigger] r.ironwood.handed_over(h, t) is None,
    {
        let sapling = copy_keys(scanning_keys.sapling());
        let orchard = copy_keys(scanning_keys.orchard());
        let ironwood = copy_keys(scanning_keys.orchard());
        assert forall|k: int| 0 <= k < ironwood@.len() implies IronwoodPool::key_valid(
            #[trigger] ironwood@[k],
        ) by {
            assert(OrchardPool::key_valid(orchard@[k]));
        }
        BatchRunners {
            sapling: BatchRunner::new(batch_size_threshold, sapling),
            orchard: BatchRunner::new(batch_size_threshold, orchard),
            ironwood: BatchRunner::new(batch_size_threshold, ironwood),
        }
    }

    /// Tries the keys on all outputs that have not been tried.
    pub fn flush(&mut self)
        ensures
            final(self).flushed(),
            final(self).sapling.key_seq() == old(self).sapling.key_seq(),
            final(self).orchard.key_seq() == old(self).orchard.key_seq(),
            final(self).ironwood.key_seq() == old(self).ironwood.key_seq(),
            forall|h: Seq<u8>, t: Seq<u8>| #[trigger]
                final(self).sapling.handed_over(h, t) == old(self).sapling.handed_over(h, t),
            forall|h: Seq<u8>, t: Seq<u8>| #[trigger]
                final(self).orchard.handed_over(h, t) == old(self).orchard.handed_over(h, t),
            forall|h: Seq<u8>, t: Seq<u8>| #[trigger]
                final(self).ironwood.handed_over(h, t) == old(self).ironwood.handed_over(h, t),
    {
        self.sapling.flush();
        self.orchard.flush();
        self.ironwood.flush();
    }

    /// Hands over all outputs of a block, or those before the first item that cannot be read.
    pub fn add_block(&mut self, params: &Params, block: &CompactBlock) -> (r: Result<(), ScanError>)
        ensures
            r == (match first_reading_error(block.height, block.vtx@) {
                None => Ok::<(), ScanError>(()),
                Some(e) => Err(e),
            }),
            final(self).sapling.key_seq() == old(self).sapling.key_seq(),
            final(self).orchard.key_seq() == old(self).orchard.key_seq(),
            final(self).ironwood.key_seq() == old(self).ironwood.key_seq(),
            r is Ok ==> final(self).holds_beside(
                *old(self),
                block.hash@,
                block.vtx@,
                params.zip212_rule(block.height),
            ),
            final(self).holds_each_beside(
                *old(self),
                block.hash@,
                readable_in(block.height, block.vtx@, NoteCommitmentTree::Sapling),
                readable_in(block.height, block.vtx@, NoteCommitmentTree::Orchard),
                readable_in(block.height, block.vtx@, NoteCommitmentTree::Ironwood),
                params.zip212_rule(block.height),
            ),
    {
        let zip212 = params.zip212_enforcement(block.height);
        let mut i: usize = 0;
        assert(block.vtx@.take(0) =~= Seq::empty());
        while i < block.vtx.len()
            invariant
                i <= block.vtx.len(),
                zip212 == params.zip212_rule(block.height),
                first_reading_error(block.height, block.vtx@.take(i as int)) is None,
                self.sapling.key_seq() == old(self).sapling.key_seq(),
                self.orchard.key_seq() == old(self).orchard.key_seq(),
                self.ironwood.key_seq() == old(self).ironwood.key_seq(),
                self.holds_beside(*old(self), block.hash@, block.vtx@.take(i as int), zip212),
            decreases block.vtx.len() - i,
        {
            let tx = &block.vtx[i];
            let ghost before = *self;
            proof {
                assert(block.vtx@.take(i as int + 1).drop_last() =~= block.vtx@.take(i as int));
                if first_reading_error(block.height, block.vtx@.take(i as int + 1)) is Some {
                    lemma_reading_error_kept(block.height, block.vtx@, i as int + 1);
                    lemma_txs_readable(block.height, block.vtx@, i as int);
                }
            }
            let outputs = match read_outputs(&tx.outputs, zip212) {
                Ok(outputs) => outputs,
                Err(index) => {
                    return Err(
                        invalid_compact_encoding(
                            block.height,
                            tx.txid,
                            NoteCommitmentTree::Sapling,
                            index,
                        ),
                    );
                },
            };
            proof {
                lemma_none_unmet(outputs_valid(tx.outputs@));
                assert forall|k: int| 0 <= k < outputs@.len() implies SaplingPool::output_valid(
                    (#[trigger] outputs@[k])@,
                ) by {
                    assert(views(outputs@)[k] == output_parts(tx.outputs@, zip212)[k]);
                    assert(outputs_valid(tx.outputs@)[k]);
                }
            }
            self.sapling.add_outputs(block.hash, tx.txid, outputs);
            let actions = match read_actions(&tx.actions) {
                Ok(actions) => actions,
                Err(index) => {
                    return Err(
                        invalid_compact_encoding(
                            block.height,
                            tx.txid,
                            NoteCommitmentTree::Orchard,
                            index,
                        ),
                    );
                },
            };
            proof {
                lemma_none_unmet(actions_valid(tx.actions@));
                assert forall|k: int| 0 <= k < actions@.len() implies OrchardPool::output_valid(
                    (#[trigger] actions@[k])@,
                ) by {
                    assert(views(actions@)[k] == action_parts(tx.actions@)[k]);
                    assert(actions_valid(tx.actions@)[k]);
                }
            }
            self.orchard.add_outputs(block.hash, tx.txid, actions);
            let ironwood_actions = match read_actions(&tx.ironwood_actions) {
                Ok(actions) => actions,
                Err(index) => {
                    return Err(
                        invalid_compact_encoding(
                            block.height,
                            tx.txid,
                            NoteCommitmentTree::Ironwood,
                            index,
                        ),
                    );
                },
            };
            proof {
                lemma_none_unmet(actions_valid(tx.ironwood_actions@));
                assert forall|k: int|
                    0 <= k < ironwood_actions@.len() implies IronwoodPool::output_valid(
                    (#[trigger] ironwood_actions@[k])@,
                ) by {
                    assert(views(ironwood_actions@)[k] == action_parts(tx.ironwood_actions@)[k]);
                    assert(actions_valid(tx.ironwood_actions@)[k]);
                }
            }
            self.ironwood.add_outputs(block.hash, tx.txid, ironwood_actions);
            i = i + 1;
        }
        proof {
            assert(block.vtx@.take(i as int) =~= block.vtx@);
            lemma_txs_readable(block.height, block.vtx@, i as int);
        }
        Ok(())
    }
}

/// A copy of some keys.
fn copy_keys<K: Copy>(keys: &Vec<K>) -> (r: Vec<K>)
    ensures
        r@ == keys@,
{
    let mut copy: Vec<K> = Vec::new();
    let mut i: usize = 0;
    while i < keys.len()
        invariant
            i <= keys.len(),
            copy@ == keys@.take(i as int),
        decreases keys.len() - i,
    {
        copy.push(keys[i]);
        i = i + 1;
    }
    assert(copy@ =~= keys@);
    copy
}

} // verus!
