//! The transparent bundle of a partially created transaction.

use std::collections::BTreeMap;

use vstd::prelude::*;

use crate::field::copy_bytes;

use super::orchard::bytes_view;
use super::orchard::copy_optional_bytes;
use super::orchard::PcztDerivation;

verus! {

/// Signs only the output with the same index as the input.
pub const SIGHASH_SINGLE: u8 = 0x03;

/// Signs no other input; combined with any of the others.
pub const SIGHASH_ANYONECANPAY: u8 = 0x80;

/// Why a part of a bundle could not be parsed.
#[verifier::external_type_specification]
#[verifier::external_body]
pub struct ExTransparentParseError(zcash_transparent::pczt::ParseError);

/// A parsed input.
#[verifier::external_type_specification]
#[verifier::external_body]
pub struct ExTransparentInput(zcash_transparent::pczt::Input);

/// A parsed output.
#[verifier::external_type_specification]
#[verifier::external_body]
pub struct ExTransparentOutput(zcash_transparent::pczt::Output);

/// A transparent input.
pub struct TransparentPcztInput {
    pub prevout_txid: [u8; 32],
    pub prevout_index: u32,
    pub sequence: Option<u32>,
    pub required_time_lock_time: Option<u32>,
    pub required_height_lock_time: Option<u32>,
    pub script_sig: Option<Vec<u8>>,
    pub value: u64,
    pub script_pubkey: Vec<u8>,
    pub redeem_script: Option<Vec<u8>>,
    pub partial_signatures: BTreeMap<[u8; 33], Vec<u8>>,
    pub sighash_type: u8,
    pub bip32_derivation: BTreeMap<[u8; 33], PcztDerivation>,
    pub ripemd160_preimages: BTreeMap<[u8; 20], Vec<u8>>,
    pub sha256_preimages: BTreeMap<[u8; 32], Vec<u8>>,
    pub hash160_preimages: BTreeMap<[u8; 20], Vec<u8>>,
    pub hash256_preimages: BTreeMap<[u8; 32], Vec<u8>>,
    pub proprietary: BTreeMap<String, Vec<u8>>,
}

/// A transparent output.
pub struct TransparentPcztOutput {
    pub value: u64,
    pub script_pubkey: Vec<u8>,
    pub redeem_script: Option<Vec<u8>>,
    pub bip32_derivation: BTreeMap<[u8; 33], PcztDerivation>,
    pub user_address: Option<String>,
    pub proprietary: BTreeMap<String, Vec<u8>>,
}

/// A transparent bundle.
pub struct TransparentPcztBundle {
    pub inputs: Vec<TransparentPcztInput>,
    pub outputs: Vec<TransparentPcztOutput>,
}

/// What an input consists of.
pub struct TransparentInputView {
    pub prevout_txid: [u8; 32],
    pub prevout_index: u32,
    pub sequence: Option<u32>,
    pub required_time_lock_time: Option<u32>,
    pub required_height_lock_time: Option<u32>,
    pub script_sig: Option<Seq<u8>>,
    pub value: u64,
    pub script_pubkey: Seq<u8>,
    pub redeem_script: Option<Seq<u8>>,
    pub partial_signatures: Map<[u8; 33], Vec<u8>>,
    pub sighash_type: u8,
    pub bip32_derivation: Map<[u8; 33], PcztDerivation>,
    pub ripemd160_preimages: Map<[u8; 20], Vec<u8>>,
    pub sha256_preimages: Map<[u8; 32], Vec<u8>>,
    pub hash160_preimages: Map<[u8; 20], Vec<u8>>,
    pub hash256_preimages: Map<[u8; 32], Vec<u8>>,
    pub proprietary: Map<String, Vec<u8>>,
}

/// What an output consists of.
pub struct TransparentOutputView {
    pub value: u64,
    pub script_pubkey: Seq<u8>,
    pub redeem_script: Option<Seq<u8>>,
    pub bip32_derivation: Map<[u8; 33], PcztDerivation>,
    pub user_address: Option<Seq<char>>,
    pub proprietary: Map<String, Vec<u8>>,
}

/// What a bundle consists of.
pub struct TransparentBundleView {
    pub inputs: Seq<TransparentInputView>,
    pub outputs: Seq<TransparentOutputView>,
}

impl View for TransparentPcztInput {
    type V = TransparentInputView;

    open spec fn view(&self) -> TransparentInputView {
        TransparentInputView {
            prevout_txid: self.prevout_txid,
            prevout_index: self.prevout_index,
            sequence: self.sequence,
            required_time_lock_time: self.required_time_lock_time,
            required_height_lock_time: self.required_height_lock_time,
            script_sig: bytes_view(self.script_sig),
            value: self.value,
            script_pubkey: self.script_pubkey@,
            redeem_script: bytes_view(self.redeem_script),
            partial_signatures: self.partial_signatures@,
            sighash_type: self.sighash_type,
            bip32_derivation: self.bip32_derivation@,
            ripemd160_preimages: self.ripemd160_preimages@,
            sha256_preimages: self.sha256_preimages@,
            hash160_preimages: self.hash160_preimages@,
            hash256_preimages: self.hash256_preimages@,
            proprietary: self.proprietary@,
        }
    }
}

impl View for TransparentPcztOutput {
    type V = TransparentOutputView;

    open spec fn view(&self) -> TransparentOutputView {
        TransparentOutputView {
            value: self.value,
            script_pubkey: self.script_pubkey@,
            redeem_script: bytes_view(self.redeem_script),
            bip32_derivation: self.bip32_derivation@,
            user_address: match self.user_address {
                Some(address) => Some(address@),
                None => None,
            },
            proprietary: self.proprietary@,
        }
    }
}

impl View for TransparentPcztBundle {
    type V = TransparentBundleView;

    open spec fn view(&self) -> TransparentBundleView {
        TransparentBundleView {
            inputs: self.inputs@.map_values(|i: TransparentPcztInput| i@),
            outputs: self.outputs@.map_values(|o: TransparentPcztOutput| o@),
        }
    }
}

/// Whether the parts of a transparent input are what they should be: its lock times in their
/// ranges, its value an amount that can exist, its scripts and its signatures.
pub uninterp spec fn transparent_input_parses(input: TransparentInputView) -> bool;

/// Whether the parts of a transparent output are what they should be: its value an amount that
/// can exist, and its scripts.
pub uninterp spec fn transparent_output_parses(output: TransparentOutputView) -> bool;

impl TransparentBundleView {
    /// Whether all parts of the bundle are what they should be.
    pub open spec fn parses(self) -> bool {
        &&& forall|i: int|
            0 <= i < self.inputs.len() ==> transparent_input_parses(#[trigger] self.inputs[i])
        &&& forall|i: int|
            0 <= i < self.outputs.len() ==> transparent_output_parses(#[trigger] self.outputs[i])
    }

    /// Whether some input signs only the output with its own index.
    pub open spec fn has_sighash_single(self) -> bool {
        exists|i: int|
            0 <= i < self.inputs.len() && (#[trigger] self.inputs[i]).sighash_type
                % SIGHASH_ANYONECANPAY == SIGHASH_SINGLE
    }
}

/// Parses an input.
///
/// This is `zcash_transparent::pczt::Input::parse`; whether it succeeds is a function of the parts
/// of the input. The derivations, which it only stores, are left out.
#[verifier::external_body]
fn parse_transparent_input(input: &TransparentPcztInput) -> (r: Result<
    zcash_transparent::pczt::Input,
    zcash_transparent::pczt::ParseError,
>)
    ensures
        r is Ok == transparent_input_parses(input@),
{
    zcash_transparent::pczt::Input::parse(
        input.prevout_txid, input.prevout_index, input.sequence, input.required_time_lock_time,
        input.required_height_lock_time, input.script_sig.clone(), input.value,
        input.script_pubkey.clone(), input.redeem_script.clone(),
        input.partial_signatures.clone(), input.sighash_type, BTreeMap::new(),
        input.ripemd160_preimages.clone(), input.sha256_preimages.clone(),
        input.hash160_preimages.clone(), input.hash256_preimages.clone(),
        input.proprietary.clone())
}

/// Parses an output.
///
/// This is `zcash_transparent::pczt::Output::parse`; whether it succeeds is a function of the
/// parts of the output. The derivations, which it only stores, are left out.
#[verifier::external_body]
fn parse_transparent_output(output: &TransparentPcztOutput) -> (r: Result<
    zcash_transparent::pczt::Output,
    zcash_transparent::pczt::ParseError,
>)
    ensures
        r is Ok == transparent_output_parses(output@),
{
    zcash_transparent::pczt::Output::parse(
        output.value, output.script_pubkey.clone(), output.redeem_script.clone(), BTreeMap::new(),
        output.user_address.clone(), output.proprietary.clone())
}

/// A transparent bundle without inputs and outputs.
pub open spec fn empty_transparent_view() -> TransparentBundleView {
    TransparentBundleView { inputs: Seq::empty(), outputs: Seq::empty() }
}

/// A transparent bundle without inputs and outputs.
pub(crate) fn empty_transparent_bundle() -> (r: TransparentPcztBundle)
    ensures
        r@ == empty_transparent_view(),
{
    let r = TransparentPcztBundle { inputs: Vec::new(), outputs: Vec::new() };
    assert(r@.inputs =~= Seq::empty());
    assert(r@.outputs =~= Seq::empty());
    r
}

impl TransparentPcztInput {
    /// A copy.
    fn copy(&self) -> (r: TransparentPcztInput)
        ensures
            r@ == self@,
    {
        TransparentPcztInput {
            prevout_txid: self.prevout_txid,
            prevout_index: self.prevout_index,
            sequence: self.sequence,
            required_time_lock_time: self.required_time_lock_time,
            required_height_lock_time: self.required_height_lock_time,
            script_sig: copy_optional_bytes(&self.script_sig),
            value: self.value,
            script_pubkey: copy_bytes(self.script_pubkey.as_slice()),
            redeem_script: copy_optional_bytes(&self.redeem_script),
            partial_signatures: self.partial_signatures.clone(),
            sighash_type: self.sighash_type,
            bip32_derivation: self.bip32_derivation.clone(),
            ripemd160_preimages: self.ripemd160_preimages.clone(),
            sha256_preimages: self.sha256_preimages.clone(),
            hash160_preimages: self.hash160_preimages.clone(),
            hash256_preimages: self.hash256_preimages.clone(),
            proprietary: self.proprietary.clone(),
        }
    }
}

impl TransparentPcztOutput {
    /// A copy.
    fn copy(&self) -> (r: TransparentPcztOutput)
        ensures
            r@ == self@,
    {
        TransparentPcztOutput {
            value: self.value,
            script_pubkey: copy_bytes(self.script_pubkey.as_slice()),
            redeem_script: copy_optional_bytes(&self.redeem_script),
            bip32_derivation: self.bip32_derivation.clone(),
            user_address: match &self.user_address {
                Some(address) => Some(address.clone()),
                None => None,
            },
            proprietary: self.proprietary.clone(),
        }
    }
}

impl TransparentPcztBundle {
    /// A copy.
    pub fn copy(&self) -> (r: TransparentPcztBundle)
        ensures
            r@ == self@,
    {
        let mut inputs: Vec<TransparentPcztInput> = Vec::new();
        let mut i: usize = 0;
        while i < self.inputs.len()
            invariant
                i <= self.inputs@.len(),
                inputs@.len() == i,
                forall|k: int| 0 <= k < i ==> (#[trigger] inputs@[k])@ == self.inputs@[k]@,
            decreases self.inputs@.len() - i,
        {
            inputs.push(self.inputs[i].copy());
            i = i + 1;
        }
        assert(inputs@.map_values(|s: TransparentPcztInput| s@) =~= self@.inputs);
        let mut outputs: Vec<TransparentPcztOutput> = Vec::new();
        let mut i: usize = 0;
        while i < self.outputs.len()
            invariant
                i <= self.outputs@.len(),
                outputs@.len() == i,
                forall|k: int| 0 <= k < i ==> (#[trigger] outputs@[k])@ == self.outputs@[k]@,
            decreases self.outputs@.len() - i,
        {
            outputs.push(self.outputs[i].copy());
            i = i + 1;
        }
        assert(outputs@.map_values(|o: TransparentPcztOutput| o@) =~= self@.outputs);
        TransparentPcztBundle { inputs, outputs }
    }

    /// Checks that the bundle can be parsed.
    pub fn check_parses(&self) -> (r: Result<(), zcash_transparent::pczt::ParseError>)
        ensures
            r is Ok == self@.parses(),
    {
        let mut i: usize = 0;
        while i < self.inputs.len()
            invariant
                i <= self.inputs@.len(),
                forall|k: int| 0 <= k < i ==> transparent_input_parses(#[trigger] self@.inputs[k]),
            decreases self.inputs@.len() - i,
        {
            assert(self@.inputs[i as int] == self.inputs@[i as int]@);
            match parse_transparent_input(&self.inputs[i]) {
                Ok(_) => {},
                Err(e) => {
                    return Err(e);
                },
            }
            i = i + 1;
        }
        let mut i: usize = 0;
        while i < self.outputs.len()
            invariant
                i <= self.outputs@.len(),
                forall|k: int|
                    0 <= k < i ==> transparent_output_parses(#[trigger] self@.outputs[k]),
            decreases self.outputs@.len() - i,
        {
            assert(self@.outputs[i as int] == self.outputs@[i as int]@);
            match parse_transparent_output(&self.outputs[i]) {
                Ok(_) => {},
                Err(e) => {
                    return Err(e);
                },
            }
            i = i + 1;
        }
        Ok(())
    }

    /// Whether some input signs only the output with its own index, and perhaps no other input.
    pub fn signs_single(&self) -> (r: bool)
        ensures
            r == self@.has_sighash_single(),
    {
        let mut i: usize = 0;
        while i < self.inputs.len()
            invariant
                i <= self.inputs@.len(),
                forall|k: int|
                    0 <= k < i ==> (#[trigger] self@.inputs[k]).sighash_type % SIGHASH_ANYONECANPAY
                        != SIGHASH_SINGLE,
            decreases self.inputs@.len() - i,
        {
            assert(self@.inputs[i as int] == self.inputs@[i as int]@);
            if self.inputs[i].sighash_type % SIGHASH_ANYONECANPAY == SIGHASH_SINGLE {
                return true;
            }
            i = i + 1;
        }
        false
    }
}

} // verus!
