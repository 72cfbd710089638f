//! Scanning of blocks for what concerns a wallet.

use vstd::prelude::*;
use vstd::string::StringExecFns;

use crate::consensus::BlockHeight;
use crate::text::append_decimal;
use crate::text::decimal;

pub mod batch;
pub mod compact;
pub mod laws;
pub mod pools;
pub mod position;
pub mod scan;

verus! {

/// The trees of note commitments, one for each shielded pool.
#[derive(Clone, Copy, Debug, PartialEq, Eq, Structural)]
pub enum NoteCommitmentTree {
    Sapling,
    Orchard,
    Ironwood,
}

/// The ways in which the scanning of a block fails.
#[derive(Clone, Copy, Debug, PartialEq, Eq)]
pub enum ScanError {
    /// An item of a transaction is not encoded as it should be.
    EncodingInvalid { at_height: BlockHeight, txid: [u8; 32], tree: NoteCommitmentTree, index: usize },
    /// The block does not follow on the block with the hash that was expected.
    PrevHashMismatch { at_height: BlockHeight },
    /// The block does not have the height that was expected.
    BlockHeightDiscontinuity { prev_height: BlockHeight, new_height: BlockHeight },
    /// The size that the block claims for a tree is not the one that its outputs lead to.
    TreeSizeMismatch { tree: NoteCommitmentTree, at_height: BlockHeight, given: u32, computed: u32 },
    /// The size of a tree before the block cannot be told.
    TreeSizeUnknown { tree: NoteCommitmentTree, at_height: BlockHeight },
    /// The size that the block claims for a tree is less than the number of its own outputs.
    TreeSizeInvalid { tree: NoteCommitmentTree, at_height: BlockHeight },
    /// The size of a tree exceeds what can be counted.
    TreeSizeOverflow { tree: NoteCommitmentTree, at_height: BlockHeight },
}

/// What is known of the block before the one that is scanned.
#[derive(Clone, Copy, Debug, PartialEq, Eq)]
pub struct BlockMetadata {
    pub block_height: BlockHeight,
    pub block_hash: [u8; 32],
    /// The sizes of the trees after the block, where they are known.
    pub sapling_tree_size: Option<u32>,
    pub orchard_tree_size: Option<u32>,
    pub ironwood_tree_size: Option<u32>,
}

impl NoteCommitmentTree {
    /// The name of the tree.
    pub open spec fn called(self) -> Seq<char> {
        match self {
            NoteCommitmentTree::Sapling => "Sapling"@,
            NoteCommitmentTree::Orchard => "Orchard"@,
            NoteCommitmentTree::Ironwood => "Ironwood"@,
        }
    }

    /// The name of the tree.
    pub fn name(&self) -> (r: &'static str)
        ensures
            r@ == self.called(),
    {
        match self {
            NoteCommitmentTree::Sapling => "Sapling",
            NoteCommitmentTree::Orchard => "Orchard",
            NoteCommitmentTree::Ironwood => "Ironwood",
        }
    }
}

impl ScanError {
    /// The error in words.
    pub open spec fn text(self) -> Seq<char> {
        match self {
            ScanError::EncodingInvalid { at_height, txid, tree, index } => {
                tree.called() + " compact item "@ + decimal(index as nat)
                    + " of a transaction is improperly encoded at height "@ + decimal(
                    at_height as nat,
                )
            },
            ScanError::PrevHashMismatch { at_height } => {
                "The parent hash does not correspond to the block before height "@ + decimal(
                    at_height as nat,
                )
            },
            ScanError::BlockHeightDiscontinuity { prev_height, new_height } => {
                "Block height discontinuity at height "@ + decimal(new_height as nat)
                    + "; previous height was: "@ + decimal(prev_height as nat)
            },
            ScanError::TreeSizeMismatch { tree, at_height, given, computed } => {
                tree.called() + " tree size mismatch at height "@ + decimal(at_height as nat)
                    + "; given "@ + decimal(given as nat) + ", expected "@ + decimal(
                    computed as nat,
                )
            },
            ScanError::TreeSizeUnknown { tree, at_height } => {
                tree.called() + " tree size unknown at height "@ + decimal(at_height as nat)
            },
            ScanError::TreeSizeInvalid { tree, at_height } => {
                tree.called() + " tree size invalid at height "@ + decimal(at_height as nat)
            },
            ScanError::TreeSizeOverflow { tree, at_height } => {
                tree.called() + " tree size overflow at height "@ + decimal(at_height as nat)
            },
        }
    }

    /// The error in words.
    pub fn to_string(&self) -> (r: String)
        ensures
            r@ == self.text(),
    {
        let mut text = String::new();
        match self {
            ScanError::EncodingInvalid { at_height, txid: _, tree, index } => {
                text.append(tree.name());
                text.append(" compact item ");
                append_decimal(&mut text, *index as u64);
                text.append(" of a transaction is improperly encoded at height ");
                append_decimal(&mut text, *at_height as u64);
            },
            ScanError::PrevHashMismatch { at_height } => {
                text.append("The parent hash does not correspond to the block before height ");
                append_decimal(&mut text, *at_height as u64);
            },
            ScanError::BlockHeightDiscontinuity { prev_height, new_height } => {
                text.append("Block height discontinuity at height ");
                append_decimal(&mut text, *new_height as u64);
                text.append("; previous height was: ");
                append_decimal(&mut text, *prev_height as u64);
            },
            ScanError::TreeSizeMismatch { tree, at_height, given, computed } => {
                text.append(tree.name());
                text.append(" tree size mismatch at height ");
                append_decimal(&mut text, *at_height as u64);
                text.append("; given ");
                append_decimal(&mut text, *given as u64);
                text.append(", expected ");
                append_decimal(&mut text, *computed as u64);
            },
            ScanError::TreeSizeUnknown { tree, at_height } => {
                text.append(tree.name());
                text.append(" tree size unknown at height ");
                append_decimal(&mut text, *at_height as u64);
            },
            ScanError::TreeSizeInvalid { tree, at_height } => {
                text.append(tree.name());
                text.append(" tree size invalid at height ");
                append_decimal(&mut text, *at_height as u64);
            },
            ScanError::TreeSizeOverflow { tree, at_height } => {
                text.append(tree.name());
                text.append(" tree size overflow at height ");
                append_decimal(&mut text, *at_height as u64);
            },
        }
        assert(text@ =~= self.text());
        text
    }
}

/// Whether a text starts with another and ends with a number.
pub open spec fn names_and_counts(text: Seq<char>, name: Seq<char>, n: nat) -> bool {
    &&& text.len() >= name.len() + decimal(n).len()
    &&& text.take(name.len() as int) == name
    &&& text.skip(text.len() - decimal(n).len()) == decimal(n)
}

/// An error in words starts with the name of the tree that it speaks of and ends with the height, or,
/// where sizes or heights differ, with the one that was expected or came before.
pub proof fn lemma_error_in_words(e: ScanError, r: String)
    requires
        call_ensures(ScanError::to_string, (&e,), r),
    ensures
        match e {
            ScanError::EncodingInvalid { at_height, tree, .. } => names_and_counts(
                r@,
                tree.called(),
                at_height as nat,
            ),
            ScanError::PrevHashMismatch { at_height } => names_and_counts(
                r@,
                Seq::empty(),
                at_height as nat,
            ),
            ScanError::BlockHeightDiscontinuity { prev_height, .. } => names_and_counts(
                r@,
                Seq::empty(),
                prev_height as nat,
            ),
            ScanError::TreeSizeMismatch { tree, computed, .. } => names_and_counts(
                r@,
                tree.called(),
                computed as nat,
            ),
            ScanError::TreeSizeUnknown { tree, at_height } => names_and_counts(
                r@,
                tree.called(),
                at_height as nat,
            ),
            ScanError::TreeSizeInvalid { tree, at_height } => names_and_counts(
                r@,
                tree.called(),
                at_height as nat,
            ),
            ScanError::TreeSizeOverflow { tree, at_height } => names_and_counts(
                r@,
                tree.called(),
                at_height as nat,
            ),
        },
{
    match e {
        ScanError::EncodingInvalid { at_height, tree, .. }
        | ScanError::TreeSizeUnknown { tree, at_height }
        | ScanError::TreeSizeInvalid { tree, at_height }
        | ScanError::TreeSizeOverflow { tree, at_height } => {
            assert(r@.take(tree.called().len() as int) =~= tree.called());
            assert(r@.skip(r@.len() - decimal(at_height as nat).len()) =~= decimal(
                at_height as nat,
            ));
        },
        ScanError::PrevHashMismatch { at_height } => {
            assert(r@.take(0) =~= Seq::empty());
            assert(r@.skip(r@.len() - decimal(at_height as nat).len()) =~= decimal(
                at_height as nat,
            ));
        },
        ScanError::BlockHeightDiscontinuity { prev_height, .. } => {
            assert(r@.take(0) =~= Seq::empty());
            assert(r@.skip(r@.len() - decimal(prev_height as nat).len()) =~= decimal(
                prev_height as nat,
            ));
        },
        ScanError::TreeSizeMismatch { tree, computed, .. } => {
            assert(r@.take(tree.called().len() as int) =~= tree.called());
            assert(r@.skip(r@.len() - decimal(computed as nat).len()) =~= decimal(computed as nat));
        },
    }
}

} // verus!
