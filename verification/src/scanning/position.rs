//! The positions of a block's outputs in the trees of note commitments.

use vstd::prelude::*;

use crate::consensus::BlockHeight;
use crate::consensus::NetworkUpgrade;
use crate::consensus::Params;

use super::compact::CompactBlock;
use super::compact::CompactTx;
use super::compact::ChainMetadata;
use super::BlockMetadata;
use super::NoteCommitmentTree;
use super::ScanError;

verus! {

/// Where in each of the trees the next output of a block goes, and where the block ends.
#[derive(Clone, Copy, Debug, PartialEq, Eq)]
pub struct PositionTracker {
    pub sapling_tree_position: u32,
    pub sapling_final_tree_size: u32,
    pub orchard_tree_position: u32,
    pub orchard_final_tree_size: u32,
    pub ironwood_tree_position: u32,
    pub ironwood_final_tree_size: u32,
}

impl NoteCommitmentTree {
    /// The number of outputs that a transaction adds to the tree.
    pub open spec fn outputs_in(self, tx: CompactTx) -> nat {
        match self {
            NoteCommitmentTree::Sapling => tx.outputs@.len(),
            NoteCommitmentTree::Orchard => tx.actions@.len(),
            NoteCommitmentTree::Ironwood => tx.ironwood_actions@.len(),
        }
    }

    /// The number of outputs that transactions add to the tree.
    pub open spec fn outputs_of(self, txs: Seq<CompactTx>) -> nat
        decreases txs.len(),
    {
        if txs.len() == 0 {
            0
        } else {
            self.outputs_of(txs.drop_last()) + self.outputs_in(txs.last())
        }
    }

    /// The size of the tree before a block, where the block before tells it.
    pub open spec fn size_before(self, prior: Option<BlockMetadata>) -> Option<u32> {
        match prior {
            None => None,
            Some(m) => match self {
                NoteCommitmentTree::Sapling => m.sapling_tree_size,
                NoteCommitmentTree::Orchard => m.orchard_tree_size,
                NoteCommitmentTree::Ironwood => m.ironwood_tree_size,
            },
        }
    }

    /// The size of the tree after a block, as the block claims it.
    pub open spec fn claimed_size(self, m: ChainMetadata) -> u32 {
        match self {
            NoteCommitmentTree::Sapling => m.sapling_commitment_tree_size,
            NoteCommitmentTree::Orchard => m.orchard_commitment_tree_size,
            NoteCommitmentTree::Ironwood => m.ironwood_commitment_tree_size,
        }
    }

    /// The upgrade that brings the tree's pool.
    pub open spec fn upgrade(self) -> NetworkUpgrade {
        match self {
            NoteCommitmentTree::Sapling => NetworkUpgrade::Sapling,
            NoteCommitmentTree::Orchard => NetworkUpgrade::Nu5,
            NoteCommitmentTree::Ironwood => NetworkUpgrade::Nu6_3,
        }
    }

    /// The sizes of the tree before and after a block, or why they cannot be told. The size before
    /// is the one that is known of the block before; else it follows from the size that the block
    /// itself claims; else it is zero, if the block is from before the pool came into being.
    pub open spec fn sizes_around(
        self,
        params: Params,
        block: CompactBlock,
        prior: Option<BlockMetadata>,
    ) -> Result<(u32, u32), ScanError> {
        let tree = self;
        let at_height = block.height;
        let count = self.outputs_of(block.vtx@);
        if count > u32::MAX {
            Err(ScanError::TreeSizeOverflow { tree, at_height })
        } else {
            let start: Result<u32, ScanError> = match (self.size_before(prior), block.chain_metadata) {
                (Some(size), _) => Ok(size),
                (None, Some(m)) => if self.claimed_size(m) >= count {
                    Ok((self.claimed_size(m) - count) as u32)
                } else {
                    Err(ScanError::TreeSizeInvalid { tree, at_height })
                },
                (None, None) => match params.activation(self.upgrade()) {
                    Some(activation) if at_height >= activation => Err(
                        ScanError::TreeSizeUnknown { tree, at_height },
                    ),
                    _ => Ok(0),
                },
            };
            match start {
                Err(e) => Err(e),
                Ok(start) => if start + count > u32::MAX {
                    Err(ScanError::TreeSizeOverflow { tree, at_height })
                } else {
                    Ok((start, (start + count) as u32))
                },
            }
        }
    }

    /// Returns the number of outputs that a transaction adds to the tree.
    fn count_outputs(&self, tx: &CompactTx) -> (r: usize)
        ensures
            r == self.outputs_in(*tx),
    {
        match self {
            NoteCommitmentTree::Sapling => tx.outputs.len(),
            NoteCommitmentTree::Orchard => tx.actions.len(),
            NoteCommitmentTree::Ironwood => tx.ironwood_actions.len(),
        }
    }

    /// Returns the sizes of the tree before and after a block.
    fn tree_sizes_around(
        &self,
        params: &Params,
        block: &CompactBlock,
        prior_block_metadata: Option<&BlockMetadata>,
    ) -> (r: Result<(u32, u32), ScanError>)
        ensures
            r == self.sizes_around(*params, *block, given(prior_block_metadata)),
    {
        let tree = *self;
        let at_height: BlockHeight = block.height;
        let mut output_count: u32 = 0;
        let mut i: usize = 0;
        while i < block.vtx.len()
            invariant
                i <= block.vtx.len(),
                tree == *self,
                at_height == block.height,
                output_count == self.outputs_of(block.vtx@.take(i as int)),
            decreases block.vtx.len() - i,
        {
            proof {
                assert(block.vtx@.take(i as int + 1).drop_last() =~= block.vtx@.take(i as int));
                self.lemma_outputs_of_take(block.vtx@, i as int + 1);
            }
            let tx_outputs: usize = self.count_outputs(&block.vtx[i]);
            if tx_outputs > u32::MAX as usize {
                return Err(ScanError::TreeSizeOverflow { tree, at_height });
            }
            match output_count.checked_add(tx_outputs as u32) {
                Some(sum) => {
                    output_count = sum;
                },
                None => {
                    return Err(ScanError::TreeSizeOverflow { tree, at_height });
                },
            }
            i = i + 1;
        }
        assert(block.vtx@.take(i as int) =~= block.vtx@);
        let known: Option<u32> = match prior_block_metadata {
            None => None,
            Some(m) => match self {
                NoteCommitmentTree::Sapling => m.sapling_tree_size,
                NoteCommitmentTree::Orchard => m.orchard_tree_size,
                NoteCommitmentTree::Ironwood => m.ironwood_tree_size,
            },
        };
        let start: u32 = match known {
            Some(size) => size,
            None => match block.chain_metadata {
                Some(m) => {
                    let claimed: u32 = match self {
                        NoteCommitmentTree::Sapling => m.sapling_commitment_tree_size,
                        NoteCommitmentTree::Orchard => m.orchard_commitment_tree_size,
                        NoteCommitmentTree::Ironwood => m.ironwood_commitment_tree_size,
                    };
                    // An absent size reads as zero, so it may be less than the number of outputs.
                    if claimed < output_count {
                        return Err(ScanError::TreeSizeInvalid { tree, at_height });
                    }
                    claimed - output_count
                },
                None => {
                    let upgrade = match self {
                        NoteCommitmentTree::Sapling => NetworkUpgrade::Sapling,
                        NoteCommitmentTree::Orchard => NetworkUpgrade::Nu5,
                        NoteCommitmentTree::Ironwood => NetworkUpgrade::Nu6_3,
                    };
                    match params.activation_height(upgrade) {
                        Some(activation) => {
                            if at_height >= activation {
                                return Err(ScanError::TreeSizeUnknown { tree, at_height });
                            }
                            0
                        },
                        None => 0,
                    }
                },
            },
        };
        match start.checked_add(output_count) {
            Some(end) => Ok((start, end)),
            None => Err(ScanError::TreeSizeOverflow { tree, at_height }),
        }
    }

    /// The first transactions add no more outputs to a tree than all of them.
    pub proof fn lemma_outputs_of_take(self, txs: Seq<CompactTx>, n: int)
        requires
            0 <= n <= txs.len(),
        ensures
            self.outputs_of(txs.take(n)) <= self.outputs_of(txs),
        decreases txs.len(),
    {
        if n < txs.len() {
            self.lemma_outputs_of_take(txs.drop_last(), n);
            assert(txs.drop_last().take(n) =~= txs.take(n));
        } else {
            assert(txs.take(n) =~= txs);
        }
    }
}

/// A value that may be given by reference.
pub open spec fn given<T>(value: Option<&T>) -> Option<T> {
    match value {
        Some(value) => Some(*value),
        None => None,
    }
}

/// The sum of a position in a tree and a number of outputs, unless it exceeds what can be counted.
fn checked_tree_size_add(
    tree: NoteCommitmentTree,
    at_height: BlockHeight,
    position: u32,
    output_count: usize,
) -> (r: Result<u32, ScanError>)
    ensures
        r == (if position + output_count <= u32::MAX {
            Ok::<u32, ScanError>((position + output_count) as u32)
        } else {
            Err(ScanError::TreeSizeOverflow { tree, at_height })
        }),
{
    if output_count > u32::MAX as usize {
        return Err(ScanError::TreeSizeOverflow { tree, at_height });
    }
    match position.checked_add(output_count as u32) {
        Some(sum) => Ok(sum),
        None => Err(ScanError::TreeSizeOverflow { tree, at_height }),
    }
}

impl PositionTracker {
    /// Where the next output goes in a tree.
    pub open spec fn position(self, tree: NoteCommitmentTree) -> u32 {
        match tree {
            NoteCommitmentTree::Sapling => self.sapling_tree_position,
            NoteCommitmentTree::Orchard => self.orchard_tree_position,
            NoteCommitmentTree::Ironwood => self.ironwood_tree_position,
        }
    }

    /// The size of a tree after the block.
    pub open spec fn final_size(self, tree: NoteCommitmentTree) -> u32 {
        match tree {
            NoteCommitmentTree::Sapling => self.sapling_final_tree_size,
            NoteCommitmentTree::Orchard => self.orchard_final_tree_size,
            NoteCommitmentTree::Ironwood => self.ironwood_final_tree_size,
        }
    }

    /// Whether exactly the outputs of the given transactions remain to be passed over until the
    /// end of the block.
    pub open spec fn before(self, txs: Seq<CompactTx>) -> bool {
        forall|tree: NoteCommitmentTree|
            self.position(tree) + #[trigger] tree.outputs_of(txs) == self.final_size(tree)
    }

    /// The tracker at the start of a block, or why the sizes of the trees cannot be told.
    pub open spec fn at_start(
        params: Params,
        block: CompactBlock,
        prior: Option<BlockMetadata>,
    ) -> Result<PositionTracker, ScanError> {
        match NoteCommitmentTree::Sapling.sizes_around(params, block, prior) {
            Err(e) => Err(e),
            Ok(s) => match NoteCommitmentTree::Orchard.sizes_around(params, block, prior) {
                Err(e) => Err(e),
                Ok(o) => match NoteCommitmentTree::Ironwood.sizes_around(params, block, prior) {
                    Err(e) => Err(e),
                    Ok(i) => Ok(
                        PositionTracker {
                            sapling_tree_position: s.0,
                            sapling_final_tree_size: s.1,
                            orchard_tree_position: o.0,
                            orchard_final_tree_size: o.1,
                            ironwood_tree_position: i.0,
                            ironwood_final_tree_size: i.1,
                        },
                    ),
                },
            },
        }
    }

    /// The tracker after a transaction.
    pub open spec fn after(self, tx: CompactTx) -> PositionTracker {
        PositionTracker {
            sapling_tree_position: (self.sapling_tree_position + tx.outputs@.len()) as u32,
            orchard_tree_position: (self.orchard_tree_position + tx.actions@.len()) as u32,
            ironwood_tree_position: (self.ironwood_tree_position + tx.ironwood_actions@.len()) as u32,
            ..self
        }
    }

    /// The first tree for which the block claims a size other than the one that its outputs lead
    /// to, and the error that reports it.
    pub open spec fn end_error(self, at_height: BlockHeight, claimed: Option<ChainMetadata>) -> Option<
        ScanError,
    > {
        match claimed {
            None => None,
            Some(m) => if m.sapling_commitment_tree_size != self.sapling_tree_position {
                Some(
                    ScanError::TreeSizeMismatch {
                        tree: NoteCommitmentTree::Sapling,
                        at_height,
                        given: m.sapling_commitment_tree_size,
                        computed: self.sapling_tree_position,
                    },
                )
            } else if m.orchard_commitment_tree_size != self.orchard_tree_position {
                Some(
                    ScanError::TreeSizeMismatch {
                        tree: NoteCommitmentTree::Orchard,
                        at_height,
                        given: m.orchard_commitment_tree_size,
                        computed: self.orchard_tree_position,
                    },
                )
            } else if m.ironwood_commitment_tree_size != self.ironwood_tree_position {
                Some(
                    ScanError::TreeSizeMismatch {
                        tree: NoteCommitmentTree::Ironwood,
                        at_height,
                        given: m.ironwood_commitment_tree_size,
                        computed: self.ironwood_tree_position,
                    },
                )
            } else {
                None
            },
        }
    }

    /// The tracker at the start of a block. It then stands before all of the block's transactions.
    pub fn for_compact_block(
        params: &Params,
        block: &CompactBlock,
        prior_block_metadata: Option<&BlockMetadata>,
    ) -> (r: Result<PositionTracker, ScanError>)
        ensures
            r == Self::at_start(*params, *block, given(prior_block_metadata)),
            r matches Ok(tracker) ==> tracker.before(block.vtx@),
    {
        let s: (u32, u32) = match NoteCommitmentTree::Sapling.tree_sizes_around(
            params,
            block,
            prior_block_metadata,
        ) {
            Ok(sizes) => sizes,
            Err(e) => {
                return Err(e);
            },
        };
        let o: (u32, u32) = match NoteCommitmentTree::Orchard.tree_sizes_around(
            params,
            block,
            prior_block_metadata,
        ) {
            Ok(sizes) => sizes,
            Err(e) => {
                return Err(e);
            },
        };
        let i: (u32, u32) = match NoteCommitmentTree::Ironwood.tree_sizes_around(
            params,
            block,
            prior_block_metadata,
        ) {
            Ok(sizes) => sizes,
            Err(e) => {
                return Err(e);
            },
        };
        Ok(
            PositionTracker {
                sapling_tree_position: s.0,
                sapling_final_tree_size: s.1,
                orchard_tree_position: o.0,
                orchard_final_tree_size: o.1,
                ironwood_tree_position: i.0,
                ironwood_final_tree_size: i.1,
            },
        )
    }

    /// Whether a transaction holds the last Sapling outputs of the block.
    pub fn compact_tx_contains_last_sapling_outputs_in_block(
        &self,
        at_height: BlockHeight,
        tx: &CompactTx,
    ) -> (r: Result<bool, ScanError>)
        ensures
            r == self.reaches_end(NoteCommitmentTree::Sapling, at_height, *tx),
    {
        match checked_tree_size_add(
            NoteCommitmentTree::Sapling,
            at_height,
            self.sapling_tree_position,
            tx.outputs.len(),
        ) {
            Ok(position) => Ok(position == self.sapling_final_tree_size),
            Err(e) => Err(e),
        }
    }

    /// Whether a transaction holds the last Orchard actions of the block.
    pub fn compact_tx_contains_last_orchard_actions_in_block(
        &self,
        at_height: BlockHeight,
        tx: &CompactTx,
    ) -> (r: Result<bool, ScanError>)
        ensures
            r == self.reaches_end(NoteCommitmentTree::Orchard, at_height, *tx),
    {
        match checked_tree_size_add(
            NoteCommitmentTree::Orchard,
            at_height,
            self.orchard_tree_position,
            tx.actions.len(),
        ) {
            Ok(position) => Ok(position == self.orchard_final_tree_size),
            Err(e) => Err(e),
        }
    }

    /// Whether a transaction holds the last Ironwood actions of the block.
    pub fn compact_tx_contains_last_ironwood_actions_in_block(
        &self,
        at_height: BlockHeight,
        tx: &CompactTx,
    ) -> (r: Result<bool, ScanError>)
        ensures
            r == self.reaches_end(NoteCommitmentTree::Ironwood, at_height, *tx),
    {
        match checked_tree_size_add(
            NoteCommitmentTree::Ironwood,
            at_height,
            self.ironwood_tree_position,
            tx.ironwood_actions.len(),
        ) {
            Ok(position) => Ok(position == self.ironwood_final_tree_size),
            Err(e) => Err(e),
        }
    }

    /// Whether the outputs of a transaction reach the size of a tree after the block, unless they
    /// exceed what can be counted.
    pub open spec fn reaches_end(
        self,
        tree: NoteCommitmentTree,
        at_height: BlockHeight,
        tx: CompactTx,
    ) -> Result<bool, ScanError> {
        let end = self.position(tree) + tree.outputs_in(tx);
        if end <= u32::MAX {
            Ok(end == self.final_size(tree))
        } else {
            Err(ScanError::TreeSizeOverflow { tree, at_height })
        }
    }

    /// The first tree in which a transaction's outputs exceed what can be counted, and the error
    /// that reports it.
    pub open spec fn passing_error(self, at_height: BlockHeight, tx: CompactTx) -> Option<ScanError> {
        if self.sapling_tree_position + tx.outputs@.len() > u32::MAX {
            Some(ScanError::TreeSizeOverflow { tree: NoteCommitmentTree::Sapling, at_height })
        } else if self.orchard_tree_position + tx.actions@.len() > u32::MAX {
            Some(ScanError::TreeSizeOverflow { tree: NoteCommitmentTree::Orchard, at_height })
        } else if self.ironwood_tree_position + tx.ironwood_actions@.len() > u32::MAX {
            Some(ScanError::TreeSizeOverflow { tree: NoteCommitmentTree::Ironwood, at_height })
        } else {
            None
        }
    }

    /// Passes over the outputs of a transaction.
    pub fn increment_over_compact_tx(&mut self, at_height: BlockHeight, tx: &CompactTx) -> (r: Result<
        (),
        ScanError,
    >)
        ensures
            match old(self).passing_error(at_height, *tx) {
                None => r is Ok && *final(self) == old(self).after(*tx),
                Some(e) => r == Err::<(), ScanError>(e),
            },
    {
        match checked_tree_size_add(
            NoteCommitmentTree::Sapling,
            at_height,
            self.sapling_tree_position,
            tx.outputs.len(),
        ) {
            Ok(position) => {
                self.sapling_tree_position = position;
            },
            Err(e) => {
                return Err(e);
            },
        }
        match checked_tree_size_add(
            NoteCommitmentTree::Orchard,
            at_height,
            self.orchard_tree_position,
            tx.actions.len(),
        ) {
            Ok(position) => {
                self.orchard_tree_position = position;
            },
            Err(e) => {
                return Err(e);
            },
        }
        match checked_tree_size_add(
            NoteCommitmentTree::Ironwood,
            at_height,
            self.ironwood_tree_position,
            tx.ironwood_actions.len(),
        ) {
            Ok(position) => {
                self.ironwood_tree_position = position;
            },
            Err(e) => {
                return Err(e);
            },
        }
        Ok(())
    }

    /// Checks the sizes that a block claims for the trees, when all of its transactions have been
    /// passed over.
    pub fn check_end_of_compact_block_consistency(
        &self,
        at_height: BlockHeight,
        chain_metadata: Option<ChainMetadata>,
    ) -> (r: Result<(), ScanError>)
        requires
            self.before(Seq::empty()),
        ensures
            r == (match self.end_error(at_height, chain_metadata) {
                None => Ok::<(), ScanError>(()),
                Some(e) => Err(e),
            }),
    {
        if let Some(m) = chain_metadata {
            if m.sapling_commitment_tree_size != self.sapling_tree_position {
                return Err(
                    ScanError::TreeSizeMismatch {
                        tree: NoteCommitmentTree::Sapling,
                        at_height,
                        given: m.sapling_commitment_tree_size,
                        computed: self.sapling_tree_position,
                    },
                );
            }
            if m.orchard_commitment_tree_size != self.orchard_tree_position {
                return Err(
                    ScanError::TreeSizeMismatch {
                        tree: NoteCommitmentTree::Orchard,
                        at_height,
                        given: m.orchard_commitment_tree_size,
                        computed: self.orchard_tree_position,
                    },
                );
            }
            if m.ironwood_commitment_tree_size != self.ironwood_tree_position {
                return Err(
                    ScanError::TreeSizeMismatch {
                        tree: NoteCommitmentTree::Ironwood,
                        at_height,
                        given: m.ironwood_commitment_tree_size,
                        computed: self.ironwood_tree_position,
                    },
                );
            }
        }
        Ok(())
    }
}

/// A tracker at the start of a block stands before all of its transactions.
pub proof fn lemma_start_is_before(params: Params, block: CompactBlock, prior: Option<BlockMetadata>)
    ensures
        PositionTracker::at_start(params, block, prior) matches Ok(tracker) ==> tracker.before(
            block.vtx@,
        ),
{
}

/// Counting the outputs of transactions can start at the front as well.
proof fn lemma_outputs_of_first(tree: NoteCommitmentTree, txs: Seq<CompactTx>)
    requires
        txs.len() > 0,
    ensures
        tree.outputs_of(txs) == tree.outputs_in(txs[0]) + tree.outputs_of(txs.skip(1)),
    decreases txs.len(),
{
    if txs.len() == 1 {
        assert(txs.skip(1) =~= Seq::empty());
        assert(txs.drop_last() =~= Seq::empty());
        assert(tree.outputs_of(txs.drop_last()) == 0);
    } else {
        lemma_outputs_of_first(tree, txs.drop_last());
        assert(txs.drop_last().skip(1) =~= txs.skip(1).drop_last());
    }
}

/// A tracker that stands before some transactions can pass over the first of them without
/// exceeding what can be counted, and then stands before the others.
pub proof fn lemma_tracker_advances(tracker: PositionTracker, txs: Seq<CompactTx>)
    requires
        txs.len() > 0,
        tracker.before(txs),
    ensures
        forall|tree: NoteCommitmentTree| #[trigger]
            tracker.position(tree) + tree.outputs_in(txs[0]) <= tracker.final_size(tree),
        tracker.after(txs[0]).before(txs.skip(1)),
{
    assert forall|tree: NoteCommitmentTree| #[trigger]
        tracker.position(tree) + tree.outputs_in(txs[0]) <= tracker.final_size(tree) by {
        lemma_outputs_of_first(tree, txs);
        assert(tracker.position(tree) + tree.outputs_of(txs) == tracker.final_size(tree));
    }
    let next = tracker.after(txs[0]);
    assert forall|tree: NoteCommitmentTree|
        next.position(tree) + #[trigger] tree.outputs_of(txs.skip(1)) == next.final_size(tree) by {
        lemma_outputs_of_first(tree, txs);
        assert(tracker.position(tree) + tree.outputs_in(txs[0]) <= tracker.final_size(tree));
        assert(tracker.position(tree) + tree.outputs_of(txs) == tracker.final_size(tree));
    }
}

/// A transaction reaches the end of the block in a tree if and only if no later transaction adds
/// an output to that tree.
pub proof fn lemma_last_outputs(tracker: PositionTracker, txs: Seq<CompactTx>, tree: NoteCommitmentTree)
    requires
        txs.len() > 0,
        tracker.before(txs),
    ensures
        tracker.position(tree) + tree.outputs_in(txs[0]) == tracker.final_size(tree)
            <==> tree.outputs_of(txs.skip(1)) == 0,
{
    lemma_outputs_of_first(tree, txs);
    assert(tracker.position(tree) + tree.outputs_of(txs) == tracker.final_size(tree));
}

} // verus!
