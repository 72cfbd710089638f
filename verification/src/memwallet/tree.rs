//! Trees of note commitments, as they are stored.

use vstd::prelude::*;

use crate::field::to_array;
use crate::field::copy_bytes;
use crate::field::jubjub_base_canonical;
use crate::field::pallas_base_canonical;
use crate::pool::ShieldedProtocol;
use crate::scanning::pools::is_orchard_commitment;
use crate::scanning::pools::is_sapling_commitment;

use super::proto;
use super::types::Error;

verus! {

/// The first byte of the encoding of a tree.
pub const TREE_VERSION: u8 = 1;

/// The byte that starts the encoding of an empty node.
pub const NIL_TAG: u8 = 0;

/// The byte that starts the encoding of a leaf.
pub const LEAF_TAG: u8 = 1;

/// The byte that starts the encoding of a node with two subtrees.
pub const PARENT_TAG: u8 = 2;

/// Whether bytes encode a hash in the tree of a protocol.
pub open spec fn hash_valid(protocol: ShieldedProtocol, bytes: Seq<u8>) -> bool {
    match protocol {
        ShieldedProtocol::Sapling => jubjub_base_canonical(bytes),
        ShieldedProtocol::Orchard => pallas_base_canonical(bytes),
    }
}

/// Where the subtrees of a node start whose encoding starts at `at`, behind the hash that the node
/// may hold.
pub open spec fn subtrees_start(protocol: ShieldedProtocol, bytes: Seq<u8>, at: int) -> Option<int> {
    if at + 1 >= bytes.len() {
        None
    } else if bytes[at + 1] == 0 {
        Some(at + 2)
    } else if bytes[at + 1] == 1 && at + 34 <= bytes.len() && hash_valid(
        protocol,
        bytes.subrange(at + 2, at + 34),
    ) {
        Some(at + 34)
    } else {
        None
    }
}

/// Where the encoding of a node ends that starts at `at`: an empty node is its tag alone; a leaf is
/// its tag, its hash and a byte of flags; any other node is its tag, a hash that may be absent, and
/// its two subtrees.
pub open spec fn node_end(protocol: ShieldedProtocol, bytes: Seq<u8>, at: int) -> Option<int>
    decreases bytes.len() - at,
{
    if at < 0 || at >= bytes.len() {
        None
    } else if bytes[at] == NIL_TAG {
        Some(at + 1)
    } else if bytes[at] == LEAF_TAG {
        if at + 34 <= bytes.len() && hash_valid(protocol, bytes.subrange(at + 1, at + 33))
            && bytes[at + 33] <= 7 {
            Some(at + 34)
        } else {
            None
        }
    } else if bytes[at] == PARENT_TAG {
        match subtrees_start(protocol, bytes, at) {
            None => None,
            Some(start) => match node_end(protocol, bytes, start) {
                Some(middle) => if at < middle <= bytes.len() {
                    node_end(protocol, bytes, middle)
                } else {
                    None
                },
                None => None,
            },
        }
    } else {
        None
    }
}

/// Whether bytes start with the encoding of a tree.
pub open spec fn tree_encoded(protocol: ShieldedProtocol, bytes: Seq<u8>) -> bool {
    bytes.len() > 0 && bytes[0] == TREE_VERSION && node_end(protocol, bytes, 1) is Some
}

/// A node ends behind the place where it starts.
proof fn lemma_node_end(protocol: ShieldedProtocol, bytes: Seq<u8>, at: int)
    ensures
        node_end(protocol, bytes, at) matches Some(end) ==> at < end <= bytes.len(),
    decreases bytes.len() - at,
{
    if 0 <= at < bytes.len() && bytes[at] == PARENT_TAG {
        if let Some(start) = subtrees_start(protocol, bytes, at) {
            lemma_node_end(protocol, bytes, start);
            if let Some(middle) = node_end(protocol, bytes, start) {
                if at < middle <= bytes.len() {
                    lemma_node_end(protocol, bytes, middle);
                }
            }
        }
    }
}

/// Whether the 32 bytes from `at` on encode a hash in the tree of a protocol.
fn check_hash(protocol: ShieldedProtocol, bytes: &Vec<u8>, at: usize) -> (r: bool)
    requires
        at + 32 <= bytes@.len(),
    ensures
        r == hash_valid(protocol, bytes@.subrange(at as int, at + 32)),
{
    let mut part: Vec<u8> = Vec::new();
    let mut i: usize = 0;
    while i < 32
        invariant
            i <= 32,
            at + 32 <= bytes.len(),
            part@ == bytes@.subrange(at as int, at + i),
        decreases 32 - i,
    {
        part.push(bytes[at + i]);
        assert(part@ =~= bytes@.subrange(at as int, at + i + 1));
        i = i + 1;
    }
    let hash = to_array::<32>(&part);
    match protocol {
        ShieldedProtocol::Sapling => is_sapling_commitment(&hash),
        ShieldedProtocol::Orchard => is_orchard_commitment(&hash),
    }
}

/// Finds where the encoding of a node ends that starts at `at`.
fn find_node_end(protocol: ShieldedProtocol, bytes: &Vec<u8>, at: usize) -> (r: Option<usize>)
    ensures
        match (r, node_end(protocol, bytes@, at as int)) {
            (Some(a), Some(b)) => a == b,
            (None, None) => true,
            _ => false,
        },
    decreases bytes@.len() - at,
{
    if at >= bytes.len() {
        return None;
    }
    let left: usize = bytes.len() - at;
    if bytes[at] == NIL_TAG {
        Some(at + 1)
    } else if bytes[at] == LEAF_TAG {
        if left >= 34 && check_hash(protocol, bytes, at + 1) && bytes[at + 33] <= 7 {
            Some(at + 34)
        } else {
            None
        }
    } else if bytes[at] == PARENT_TAG {
        if left < 2 {
            return None;
        }
        let start: usize = if bytes[at + 1] == 0 {
            at + 2
        } else if bytes[at + 1] == 1 && left >= 34 && check_hash(protocol, bytes, at + 2) {
            at + 34
        } else {
            return None;
        };
        proof {
            lemma_node_end(protocol, bytes@, start as int);
        }
        match find_node_end(protocol, bytes, start) {
            Some(middle) => find_node_end(protocol, bytes, middle),
            None => None,
        }
    } else {
        None
    }
}

/// Whether bytes start with the encoding of a tree.
pub fn is_tree(protocol: ShieldedProtocol, bytes: &Vec<u8>) -> (r: bool)
    ensures
        r == tree_encoded(protocol, bytes@),
{
    bytes.len() > 0 && bytes[0] == TREE_VERSION && find_node_end(protocol, bytes, 1).is_some()
}

/// A part of a tree, with its encoding.
#[derive(Debug, PartialEq, Eq)]
pub struct Shard {
    pub index: u64,
    pub data: Vec<u8>,
}

/// The tree of a protocol's note commitments.
#[derive(Debug, PartialEq, Eq)]
pub struct CommitmentTree {
    /// The encoding of the part above the shards.
    pub cap: Vec<u8>,
    pub shards: Vec<Shard>,
    pub checkpoints: Vec<proto::TreeCheckpoint>,
    /// How many checkpoints are kept. This is not stored.
    pub max_checkpoints: usize,
}

/// What a [`Shard`] stands for.
pub struct ShardView {
    pub index: u64,
    pub data: Seq<u8>,
}

/// What is stored of a [`CommitmentTree`].
pub struct TreeView {
    pub cap: Seq<u8>,
    pub shards: Seq<ShardView>,
    pub checkpoints: Seq<proto::TreeCheckpoint>,
}

impl View for Shard {
    type V = ShardView;

    open spec fn view(&self) -> ShardView {
        ShardView { index: self.index, data: self.data@ }
    }
}

impl View for CommitmentTree {
    type V = TreeView;

    open spec fn view(&self) -> TreeView {
        TreeView {
            cap: self.cap@,
            shards: self.shards@.map_values(|s: Shard| s@),
            checkpoints: self.checkpoints@,
        }
    }
}

impl TreeView {
    /// Whether the parts of the tree are encoded as they should be.
    pub open spec fn valid(self, protocol: ShieldedProtocol) -> bool {
        &&& tree_encoded(protocol, self.cap)
        &&& forall|i: int|
            0 <= i < self.shards.len() ==> tree_encoded(protocol, (#[trigger] self.shards[i]).data)
    }

    /// A tree without leaves.
    pub open spec fn empty() -> TreeView {
        TreeView {
            cap: seq![TREE_VERSION, NIL_TAG],
            shards: Seq::empty(),
            checkpoints: Seq::empty(),
        }
    }
}

impl proto::ShardTree {
    /// The tree that the record holds.
    pub open spec fn tree(self) -> TreeView {
        TreeView {
            cap: self.cap@,
            shards: self.shards@.map_values(
                |s: proto::TreeShard| ShardView { index: s.shard_index, data: s.shard_data@ },
            ),
            checkpoints: self.checkpoints@,
        }
    }
}

/// A tree without leaves can be read.
pub proof fn lemma_empty_tree(protocol: ShieldedProtocol)
    ensures
        TreeView::empty().valid(protocol),
{
}

/// A tree without leaves that keeps so many checkpoints.
pub fn empty_tree(max_checkpoints: usize) -> (r: CommitmentTree)
    ensures
        r@ == TreeView::empty(),
        r.max_checkpoints == max_checkpoints,
{
    let mut cap: Vec<u8> = Vec::new();
    cap.push(TREE_VERSION);
    cap.push(NIL_TAG);
    let shards: Vec<Shard> = Vec::new();
    let tree = CommitmentTree { cap, shards, checkpoints: Vec::new(), max_checkpoints };
    assert(tree@.cap =~= TreeView::empty().cap);
    assert(tree@.shards =~= Seq::empty());
    tree
}

/// Copies checkpoints.
fn copy_checkpoints(checkpoints: &Vec<proto::TreeCheckpoint>) -> (r: Vec<proto::TreeCheckpoint>)
    ensures
        r@ == checkpoints@,
{
    let mut copy: Vec<proto::TreeCheckpoint> = Vec::new();
    let mut i: usize = 0;
    while i < checkpoints.len()
        invariant
            i <= checkpoints.len(),
            copy@ == checkpoints@.take(i as int),
        decreases checkpoints.len() - i,
    {
        copy.push(checkpoints[i]);
        i = i + 1;
    }
    assert(copy@ =~= checkpoints@);
    copy
}

/// Reads a tree that keeps so many checkpoints from its record, unless one of its parts is not
/// encoded as it should be.
pub fn tree_from_protobuf(
    protocol: ShieldedProtocol,
    record: &proto::ShardTree,
    max_checkpoints: usize,
) -> (r: Result<CommitmentTree, Error>)
    ensures
        if record.tree().valid(protocol) {
            r matches Ok(tree) && tree@ == record.tree() && tree.max_checkpoints == max_checkpoints
        } else {
            r matches Err(e) && e == Error::InvalidTree
        },
{
    let ghost all = record.tree().shards;
    if !is_tree(protocol, &record.cap) {
        return Err(Error::InvalidTree);
    }
    let mut shards: Vec<Shard> = Vec::new();
    let mut i: usize = 0;
    while i < record.shards.len()
        invariant
            i <= record.shards.len(),
            all == record.tree().shards,
            shards@.len() == i,
            forall|k: int| 0 <= k < i ==> (#[trigger] shards@[k])@ == all[k],
            forall|k: int| 0 <= k < i ==> tree_encoded(protocol, (#[trigger] all[k]).data),
        decreases record.shards.len() - i,
    {
        let shard = &record.shards[i];
        assert(all[i as int].data == shard.shard_data@);
        if !is_tree(protocol, &shard.shard_data) {
            return Err(Error::InvalidTree);
        }
        shards.push(
            Shard { index: shard.shard_index, data: copy_bytes(shard.shard_data.as_slice()) },
        );
        i = i + 1;
    }
    let tree = CommitmentTree {
        cap: copy_bytes(record.cap.as_slice()),
        shards,
        checkpoints: copy_checkpoints(&record.checkpoints),
        max_checkpoints,
    };
    assert(tree@.shards =~= all);
    Ok(tree)
}

/// Writes a tree to its record.
pub fn tree_to_protobuf(tree: &CommitmentTree) -> (r: proto::ShardTree)
    ensures
        r.tree() == tree@,
{
    let mut shards: Vec<proto::TreeShard> = Vec::new();
    let mut i: usize = 0;
    while i < tree.shards.len()
        invariant
            i <= tree.shards.len(),
            shards@.len() == i,
            forall|k: int|
                0 <= k < i ==> (#[trigger] shards@[k]).shard_index == tree.shards@[k].index
                    && shards@[k].shard_data@ == tree.shards@[k].data@,
        decreases tree.shards.len() - i,
    {
        let shard = &tree.shards[i];
        shards.push(
            proto::TreeShard {
                shard_index: shard.index,
                shard_data: copy_bytes(shard.data.as_slice()),
            },
        );
        i = i + 1;
    }
    let record = proto::ShardTree {
        cap: copy_bytes(tree.cap.as_slice()),
        shards,
        checkpoints: copy_checkpoints(&tree.checkpoints),
    };
    assert(record.tree().shards =~= tree@.shards);
    record
}

/// A node ends where it ends whatever stands before and after it.
proof fn lemma_node_embedded(
    protocol: ShieldedProtocol,
    before: Seq<u8>,
    bytes: Seq<u8>,
    after: Seq<u8>,
    at: int,
)
    requires
        0 <= at,
        node_end(protocol, bytes, at) is Some,
    ensures
        node_end(protocol, before + bytes + after, before.len() + at) == Some(
            before.len() + node_end(protocol, bytes, at)->0,
        ),
    decreases bytes.len() - at,
{
    let all = before + bytes + after;
    let n = before.len() as int;
    lemma_node_end(protocol, bytes, at);
    assert(all[n + at] == bytes[at]);
    if bytes[at] == LEAF_TAG {
        assert(all.subrange(n + at + 1, n + at + 33) =~= bytes.subrange(at + 1, at + 33));
        assert(all[n + at + 33] == bytes[at + 33]);
    } else if bytes[at] == PARENT_TAG {
        assert(all[n + at + 1] == bytes[at + 1]);
        if bytes[at + 1] == 1 {
            assert(all.subrange(n + at + 2, n + at + 34) =~= bytes.subrange(at + 2, at + 34));
        }
        let start = subtrees_start(protocol, bytes, at)->0;
        lemma_node_end(protocol, bytes, start);
        lemma_node_embedded(protocol, before, bytes, after, start);
        let middle = node_end(protocol, bytes, start)->0;
        lemma_node_embedded(protocol, before, bytes, after, middle);
    }
}

/// A tree is encoded by the version of the encoding and then by its root: an empty node by a zero, a leaf
/// by a one, its hash and its flags, and a parent by a two, by its hash if it has one, and by what encodes
/// its two children. Nothing else encodes a node.
pub proof fn lemma_tree_encodings(
    protocol: ShieldedProtocol,
    hash: Seq<u8>,
    flags: u8,
    left: Seq<u8>,
    right: Seq<u8>,
)
    requires
        hash_valid(protocol, hash),
        flags <= 7,
        tree_encoded(protocol, seq![1u8] + left),
        node_end(protocol, seq![1u8] + left, 1) == Some(1 + left.len() as int),
        tree_encoded(protocol, seq![1u8] + right),
    ensures
        tree_encoded(protocol, seq![1u8, 0u8]),
        tree_encoded(protocol, seq![1u8, 1u8] + hash + seq![flags]),
        tree_encoded(protocol, seq![1u8, 2u8, 0u8] + left + right),
        tree_encoded(protocol, seq![1u8, 2u8, 1u8] + hash + left + right),
        forall|bytes: Seq<u8>| #[trigger]
            tree_encoded(protocol, bytes) ==> bytes.len() >= 2 && bytes[0] == 1 && bytes[1] <= 2,
{
    assert(hash.len() == 32);
    let leaf = seq![1u8, 1u8] + hash + seq![flags];
    assert(leaf.subrange(2, 34) =~= hash);
    assert(leaf[34] == flags);
    lemma_plain_parent(protocol, left, right);
    lemma_hashed_parent(protocol, hash, left, right);
}

/// A parent without a hash is encoded by a two, a zero and its children.
proof fn lemma_plain_parent(protocol: ShieldedProtocol, left: Seq<u8>, right: Seq<u8>)
    requires
        node_end(protocol, seq![1u8] + left, 1) == Some(1 + left.len() as int),
        tree_encoded(protocol, seq![1u8] + right),
    ensures
        tree_encoded(protocol, seq![1u8, 2u8, 0u8] + left + right),
{
    let all = seq![1u8, 2u8, 0u8] + left + right;
    lemma_node_detached(protocol, seq![1u8], left, 1);
    lemma_node_detached(protocol, seq![1u8], right, 1);
    lemma_node_embedded(protocol, seq![1u8, 2u8, 0u8], left, right, 0);
    lemma_node_embedded(protocol, seq![1u8, 2u8, 0u8] + left, right, Seq::empty(), 0);
    assert(seq![1u8, 2u8, 0u8] + left + right + Seq::<u8>::empty() =~= all);
    assert(subtrees_start(protocol, all, 1) == Some(3int));
    lemma_node_end(protocol, right, 0);
    lemma_node_end(protocol, all, 3);
}

/// A parent with a hash is encoded by a two, a one, the hash and its children.
proof fn lemma_hashed_parent(
    protocol: ShieldedProtocol,
    hash: Seq<u8>,
    left: Seq<u8>,
    right: Seq<u8>,
)
    requires
        hash_valid(protocol, hash),
        node_end(protocol, seq![1u8] + left, 1) == Some(1 + left.len() as int),
        tree_encoded(protocol, seq![1u8] + right),
    ensures
        tree_encoded(protocol, seq![1u8, 2u8, 1u8] + hash + left + right),
{
    assert(hash.len() == 32);
    let front = seq![1u8, 2u8, 1u8] + hash;
    let all = front + left + right;
    lemma_node_detached(protocol, seq![1u8], left, 1);
    lemma_node_detached(protocol, seq![1u8], right, 1);
    lemma_node_embedded(protocol, front, left, right, 0);
    lemma_node_embedded(protocol, front + left, right, Seq::empty(), 0);
    assert(front + left + right + Seq::<u8>::empty() =~= all);
    assert(all.subrange(3, 35) =~= hash);
    assert(subtrees_start(protocol, all, 1) == Some(35int));
    lemma_node_end(protocol, right, 0);
    lemma_node_end(protocol, all, 35);
}

/// A node that stands after some bytes ends where it ends without them.
proof fn lemma_node_detached(protocol: ShieldedProtocol, before: Seq<u8>, bytes: Seq<u8>, at: int)
    requires
        before.len() <= at,
        node_end(protocol, before + bytes, at) is Some,
    ensures
        node_end(protocol, bytes, at - before.len()) == Some(
            node_end(protocol, before + bytes, at)->0 - before.len(),
        ),
    decreases bytes.len() + before.len() - at,
{
    let all = before + bytes;
    let n = before.len() as int;
    lemma_node_end(protocol, all, at);
    assert(all[at] == bytes[at - n]);
    if all[at] == LEAF_TAG {
        assert(all.subrange(at + 1, at + 33) =~= bytes.subrange(at - n + 1, at - n + 33));
        assert(all[at + 33] == bytes[at - n + 33]);
    } else if all[at] == PARENT_TAG {
        assert(all[at + 1] == bytes[at - n + 1]);
        if all[at + 1] == 1 {
            assert(all.subrange(at + 2, at + 34) =~= bytes.subrange(at - n + 2, at - n + 34));
        }
        let start = subtrees_start(protocol, all, at)->0;
        lemma_node_end(protocol, all, start);
        lemma_node_detached(protocol, before, bytes, start);
        let middle = node_end(protocol, all, start)->0;
        lemma_node_detached(protocol, before, bytes, middle);
    }
}

} // verus!
