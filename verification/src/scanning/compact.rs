//! Blocks and transactions in their compact form.

use vstd::prelude::*;

use crate::consensus::BlockHeight;
use crate::consensus::Zip212Enforcement;
use crate::field::to_array;
use crate::field::jubjub_base_canonical;
use crate::field::pallas_base_canonical;

use super::pools::is_orchard_commitment;
use super::pools::is_orchard_nullifier;
use super::pools::is_sapling_commitment;
use super::pools::CompactAction;
use super::pools::CompactActionView;
use super::pools::SaplingOutput;
use super::pools::SaplingOutputView;
use super::NoteCommitmentTree;
use super::ScanError;

verus! {

/// A block in its compact form.
#[derive(Debug, PartialEq, Eq)]
pub struct CompactBlock {
    pub height: BlockHeight,
    /// The hash of the block.
    pub hash: [u8; 32],
    /// The hash of the block before.
    pub prev_hash: [u8; 32],
    pub time: u32,
    pub vtx: Vec<CompactTx>,
    /// The sizes of the trees after the block, where they are told.
    pub chain_metadata: Option<ChainMetadata>,
}

/// A transaction in its compact form.
#[derive(Debug, PartialEq, Eq)]
pub struct CompactTx {
    /// The place of the transaction in its block.
    pub index: u16,
    pub txid: [u8; 32],
    pub spends: Vec<CompactSaplingSpend>,
    pub outputs: Vec<CompactSaplingOutput>,
    pub actions: Vec<CompactOrchardAction>,
    pub ironwood_actions: Vec<CompactOrchardAction>,
}

/// A Sapling spend, as it was received.
#[derive(Debug, PartialEq, Eq)]
pub struct CompactSaplingSpend {
    pub nf: Vec<u8>,
}

/// A Sapling output, as it was received.
#[derive(Debug, PartialEq, Eq)]
pub struct CompactSaplingOutput {
    pub cmu: Vec<u8>,
    pub ephemeral_key: Vec<u8>,
    pub ciphertext: Vec<u8>,
}

/// An Orchard or Ironwood action, as it was received.
#[derive(Debug, PartialEq, Eq)]
pub struct CompactOrchardAction {
    pub nullifier: Vec<u8>,
    pub cmx: Vec<u8>,
    pub ephemeral_key: Vec<u8>,
    pub ciphertext: Vec<u8>,
}

/// The sizes of the trees after a block.
#[derive(Clone, Copy, Debug, PartialEq, Eq)]
pub struct ChainMetadata {
    pub sapling_commitment_tree_size: u32,
    pub orchard_commitment_tree_size: u32,
    pub ironwood_commitment_tree_size: u32,
}

impl CompactSaplingSpend {
    /// Whether the nullifier can be read.
    pub open spec fn nf_valid(self) -> bool {
        self.nf@.len() == 32
    }

    /// The nullifier of the note that is spent.
    pub fn nf(&self) -> (r: Result<[u8; 32], ()>)
        ensures
            r is Ok <==> self.nf_valid(),
            r matches Ok(nf) ==> nf@ == self.nf@,
    {
        if self.nf.len() == 32 {
            Ok(to_array::<32>(&self.nf))
        } else {
            Err(())
        }
    }
}

impl CompactSaplingOutput {
    /// Whether the output can be read.
    pub open spec fn valid(self) -> bool {
        &&& jubjub_base_canonical(self.cmu@)
        &&& self.ephemeral_key@.len() == 32
        &&& self.ciphertext@.len() == 52
    }

    /// The parts of the output, with the rules that hold for its plaintext.
    pub open spec fn parts(self, zip212: Zip212Enforcement) -> SaplingOutputView {
        SaplingOutputView {
            cmu: self.cmu@,
            ephemeral_key: self.ephemeral_key@,
            ciphertext: self.ciphertext@,
            zip212,
        }
    }

    /// Reads the output.
    pub fn read(&self, zip212: Zip212Enforcement) -> (r: Result<SaplingOutput, ()>)
        ensures
            r is Ok <==> self.valid(),
            r matches Ok(output) ==> output@ == self.parts(zip212),
    {
        if self.cmu.len() != 32 || self.ephemeral_key.len() != 32 || self.ciphertext.len() != 52 {
            return Err(());
        }
        let cmu = to_array::<32>(&self.cmu);
        if !is_sapling_commitment(&cmu) {
            return Err(());
        }
        Ok(
            SaplingOutput {
                cmu,
                ephemeral_key: to_array::<32>(&self.ephemeral_key),
                ciphertext: to_array::<52>(&self.ciphertext),
                zip212,
            },
        )
    }
}

impl CompactOrchardAction {
    /// Whether the nullifier can be read.
    pub open spec fn nf_valid(self) -> bool {
        pallas_base_canonical(self.nullifier@)
    }

    /// Whether the action can be read.
    pub open spec fn valid(self) -> bool {
        &&& self.nf_valid()
        &&& pallas_base_canonical(self.cmx@)
        &&& self.ephemeral_key@.len() == 32
        &&& self.ciphertext@.len() == 52
    }

    /// The parts of the action.
    pub open spec fn parts(self) -> CompactActionView {
        CompactActionView {
            nullifier: self.nullifier@,
            cmx: self.cmx@,
            ephemeral_key: self.ephemeral_key@,
            ciphertext: self.ciphertext@,
        }
    }

    /// The nullifier of the note that is spent.
    pub fn nf(&self) -> (r: Result<[u8; 32], ()>)
        ensures
            r is Ok <==> self.nf_valid(),
            r matches Ok(nf) ==> nf@ == self.nullifier@,
    {
        if self.nullifier.len() != 32 {
            return Err(());
        }
        let nullifier = to_array::<32>(&self.nullifier);
        if is_orchard_nullifier(&nullifier) {
            Ok(nullifier)
        } else {
            Err(())
        }
    }

    /// Reads the action.
    pub fn read(&self) -> (r: Result<CompactAction, ()>)
        ensures
            r is Ok <==> self.valid(),
            r matches Ok(action) ==> action@ == self.parts(),
    {
        let nullifier = match self.nf() {
            Ok(nullifier) => nullifier,
            Err(()) => {
                return Err(());
            },
        };
        if self.cmx.len() != 32 || self.ephemeral_key.len() != 32 || self.ciphertext.len() != 52 {
            return Err(());
        }
        let cmx = to_array::<32>(&self.cmx);
        if !is_orchard_commitment(&cmx) {
            return Err(());
        }
        Ok(
            CompactAction {
                nullifier,
                cmx,
                ephemeral_key: to_array::<32>(&self.ephemeral_key),
                ciphertext: to_array::<52>(&self.ciphertext),
            },
        )
    }
}

/// The place of the first item in a list that does not hold.
pub open spec fn first_unmet(met: Seq<bool>) -> Option<usize>
    decreases met.len(),
{
    if met.len() == 0 {
        None
    } else {
        match first_unmet(met.drop_last()) {
            Some(i) => Some(i),
            None => if met.last() {
                None
            } else {
                Some((met.len() - 1) as usize)
            },
        }
    }
}

/// An item that does not hold, and before which all hold, is the first that does not hold.
proof fn lemma_first_unmet(met: Seq<bool>, i: int)
    requires
        0 <= i < met.len(),
        !met[i],
        forall|k: int| 0 <= k < i ==> met[k],
    ensures
        first_unmet(met) == Some(i as usize),
    decreases met.len(),
{
    if i < met.len() - 1 {
        lemma_first_unmet(met.drop_last(), i);
    } else {
        lemma_all_met(met.drop_last());
    }
}

/// Where all items hold, there is no first that does not.
proof fn lemma_all_met(met: Seq<bool>)
    requires
        forall|k: int| 0 <= k < met.len() ==> met[k],
    ensures
        first_unmet(met) is None,
    decreases met.len(),
{
    if met.len() > 0 {
        lemma_all_met(met.drop_last());
    }
}

/// Where there is no first item that does not hold, all hold.
pub proof fn lemma_none_unmet(met: Seq<bool>)
    requires
        first_unmet(met) is None,
    ensures
        forall|k: int| 0 <= k < met.len() ==> met[k],
    decreases met.len(),
{
    if met.len() > 0 {
        lemma_none_unmet(met.drop_last());
        assert forall|k: int| 0 <= k < met.len() implies met[k] by {
            if k < met.len() - 1 {
                assert(met.drop_last()[k]);
            }
        }
    }
}

/// The error that reports an item of a transaction that is not encoded as it should be.
pub fn invalid_compact_encoding(
    at_height: BlockHeight,
    txid: [u8; 32],
    tree: NoteCommitmentTree,
    index: usize,
) -> (r: ScanError)
    ensures
        r == (ScanError::EncodingInvalid { at_height, txid, tree, index }),
{
    ScanError::EncodingInvalid { at_height, txid, tree, index }
}

/// Which of some Sapling spends have a nullifier that can be read.
pub open spec fn spend_nfs_valid(spends: Seq<CompactSaplingSpend>) -> Seq<bool> {
    spends.map_values(|s: CompactSaplingSpend| s.nf_valid())
}

/// The nullifiers of some Sapling spends.
pub open spec fn spend_nfs(spends: Seq<CompactSaplingSpend>) -> Seq<Seq<u8>> {
    spends.map_values(|s: CompactSaplingSpend| s.nf@)
}

/// Which of some actions have a nullifier that can be read.
pub open spec fn action_nfs_valid(actions: Seq<CompactOrchardAction>) -> Seq<bool> {
    actions.map_values(|a: CompactOrchardAction| a.nf_valid())
}

/// The nullifiers of some actions.
pub open spec fn action_nfs(actions: Seq<CompactOrchardAction>) -> Seq<Seq<u8>> {
    actions.map_values(|a: CompactOrchardAction| a.nullifier@)
}

/// Which of some Sapling outputs can be read.
pub open spec fn outputs_valid(outputs: Seq<CompactSaplingOutput>) -> Seq<bool> {
    outputs.map_values(|o: CompactSaplingOutput| o.valid())
}

/// The parts of some Sapling outputs.
pub open spec fn output_parts(
    outputs: Seq<CompactSaplingOutput>,
    zip212: Zip212Enforcement,
) -> Seq<SaplingOutputView> {
    outputs.map_values(|o: CompactSaplingOutput| o.parts(zip212))
}

/// Which of some actions can be read.
pub open spec fn actions_valid(actions: Seq<CompactOrchardAction>) -> Seq<bool> {
    actions.map_values(|a: CompactOrchardAction| a.valid())
}

/// The parts of some actions.
pub open spec fn action_parts(actions: Seq<CompactOrchardAction>) -> Seq<CompactActionView> {
    actions.map_values(|a: CompactOrchardAction| a.parts())
}

/// What each of some values stands for.
pub open spec fn views<T: View>(values: Seq<T>) -> Seq<T::V> {
    values.map_values(|v: T| v@)
}

/// Reads the nullifiers of some Sapling spends, up to the first that cannot be read.
pub fn read_spend_nfs(spends: &Vec<CompactSaplingSpend>) -> (r: Result<Vec<[u8; 32]>, usize>)
    ensures
        match first_unmet(spend_nfs_valid(spends@)) {
            None => r matches Ok(nfs) && nfs@.len() == spends@.len() && views(nfs@) == spend_nfs(spends@),
            Some(i) => r matches Err(index) && index == i,
        },
{
    let mut nfs: Vec<[u8; 32]> = Vec::new();
    let mut i: usize = 0;
    while i < spends.len()
        invariant
            i <= spends.len(),
            nfs@.len() == i,
            forall|k: int| 0 <= k < i ==> (#[trigger] nfs@[k])@ == spends@[k].nf@,
            forall|k: int| 0 <= k < i ==> spend_nfs_valid(spends@)[k],
        decreases spends.len() - i,
    {
        match spends[i].nf() {
            Ok(nf) => {
                nfs.push(nf);
            },
            Err(()) => {
                proof {
                    lemma_first_unmet(spend_nfs_valid(spends@), i as int);
                }
                return Err(i);
            },
        }
        i = i + 1;
    }
    proof {
        lemma_all_met(spend_nfs_valid(spends@));
        assert(views(nfs@) =~= spend_nfs(spends@));
    }
    Ok(nfs)
}

/// Reads the nullifiers of some actions, up to the first that cannot be read.
pub fn read_action_nfs(actions: &Vec<CompactOrchardAction>) -> (r: Result<Vec<[u8; 32]>, usize>)
    ensures
        match first_unmet(action_nfs_valid(actions@)) {
            None => r matches Ok(nfs) && nfs@.len() == actions@.len() && views(nfs@) == action_nfs(
                actions@,
            ),
            Some(i) => r matches Err(index) && index == i,
        },
{
    let mut nfs: Vec<[u8; 32]> = Vec::new();
    let mut i: usize = 0;
    while i < actions.len()
        invariant
            i <= actions.len(),
            nfs@.len() == i,
            forall|k: int| 0 <= k < i ==> (#[trigger] nfs@[k])@ == actions@[k].nullifier@,
            forall|k: int| 0 <= k < i ==> action_nfs_valid(actions@)[k],
        decreases actions.len() - i,
    {
        match actions[i].nf() {
            Ok(nf) => {
                nfs.push(nf);
            },
            Err(()) => {
                proof {
                    lemma_first_unmet(action_nfs_valid(actions@), i as int);
                }
                return Err(i);
            },
        }
        i = i + 1;
    }
    proof {
        lemma_all_met(action_nfs_valid(actions@));
        assert(views(nfs@) =~= action_nfs(actions@));
    }
    Ok(nfs)
}

/// Reads some Sapling outputs, up to the first that cannot be read.
pub fn read_outputs(outputs: &Vec<CompactSaplingOutput>, zip212: Zip212Enforcement) -> (r: Result<
    Vec<SaplingOutput>,
    usize,
>)
    ensures
        match first_unmet(outputs_valid(outputs@)) {
            None => r matches Ok(read) && read@.len() == outputs@.len() && views(read@) == output_parts(
                outputs@,
                zip212,
            ),
            Some(i) => r matches Err(index) && index == i,
        },
{
    let mut read: Vec<SaplingOutput> = Vec::new();
    let mut i: usize = 0;
    while i < outputs.len()
        invariant
            i <= outputs.len(),
            read@.len() == i,
            forall|k: int| 0 <= k < i ==> (#[trigger] read@[k])@ == outputs@[k].parts(zip212),
            forall|k: int| 0 <= k < i ==> outputs_valid(outputs@)[k],
        decreases outputs.len() - i,
    {
        match outputs[i].read(zip212) {
            Ok(output) => {
                read.push(output);
            },
            Err(()) => {
                proof {
                    lemma_first_unmet(outputs_valid(outputs@), i as int);
                }
                return Err(i);
            },
        }
        i = i + 1;
    }
    proof {
        lemma_all_met(outputs_valid(outputs@));
        assert(views(read@) =~= output_parts(outputs@, zip212));
    }
    Ok(read)
}

/// Reads some actions, up to the first that cannot be read.
pub fn read_actions(actions: &Vec<CompactOrchardAction>) -> (r: Result<Vec<CompactAction>, usize>)
    ensures
        match first_unmet(actions_valid(actions@)) {
            None => r matches Ok(read) && read@.len() == actions@.len() && views(read@) == action_parts(
                actions@,
            ),
            Some(i) => r matches Err(index) && index == i,
        },
{
    let mut read: Vec<CompactAction> = Vec::new();
    let mut i: usize = 0;
    while i < actions.len()
        invariant
            i <= actions.len(),
            read@.len() == i,
            forall|k: int| 0 <= k < i ==> (#[trigger] read@[k])@ == actions@[k].parts(),
            forall|k: int| 0 <= k < i ==> actions_valid(actions@)[k],
        decreases actions.len() - i,
    {
        match actions[i].read() {
            Ok(action) => {
                read.push(action);
            },
            Err(()) => {
                proof {
                    lemma_first_unmet(actions_valid(actions@), i as int);
                }
                return Err(i);
            },
        }
        i = i + 1;
    }
    proof {
        lemma_all_met(actions_valid(actions@));
        assert(views(read@) =~= action_parts(actions@));
    }
    Ok(read)
}

} // verus!
