//! The Sapling bundle of a partially created transaction.

use std::collections::BTreeMap;

use incrementalmerkletree::Hashable;
use incrementalmerkletree::Level;
use vstd::prelude::*;

use crate::field::copy_bytes;
use crate::field::jubjub_base_canonical;
use crate::field::jubjub_scalar_canonical;
use crate::scanning::pools::is_jubjub_point;
use crate::scanning::pools::is_jubjub_scalar;
use crate::scanning::pools::jubjub_point_encoded;

use super::orchard::copy_derivation;
use super::orchard::derivation_view;
use super::orchard::DerivationView;
use super::orchard::PcztDerivation;

verus! {

/// Why a part of a bundle could not be parsed.
#[verifier::external_type_specification]
#[verifier::external_body]
pub struct ExSaplingParseError(sapling_crypto::pczt::ParseError);

/// A parsed derivation path.
#[verifier::external_type_specification]
#[verifier::external_body]
pub struct ExSaplingDerivation(sapling_crypto::pczt::Zip32Derivation);

/// A parsed spend.
#[verifier::external_type_specification]
#[verifier::external_body]
pub struct ExSaplingSpend(sapling_crypto::pczt::Spend);

/// A parsed output.
#[verifier::external_type_specification]
#[verifier::external_body]
pub struct ExSaplingOutput(sapling_crypto::pczt::Output);

/// A parsed bundle.
#[verifier::external_type_specification]
#[verifier::external_body]
pub struct ExSaplingBundle(sapling_crypto::pczt::Bundle);

/// A Sapling spend.
pub struct SaplingPcztSpend {
    pub cv: [u8; 32],
    pub nullifier: [u8; 32],
    pub rk: [u8; 32],
    pub zkproof: Option<[u8; 192]>,
    pub spend_auth_sig: Option<[u8; 64]>,
    pub recipient: Option<[u8; 43]>,
    pub value: Option<u64>,
    pub rcm: Option<[u8; 32]>,
    pub rseed: Option<[u8; 32]>,
    pub rcv: Option<[u8; 32]>,
    pub proof_generation_key: Option<([u8; 32], [u8; 32])>,
    pub witness: Option<(u32, [[u8; 32]; 32])>,
    pub alpha: Option<[u8; 32]>,
    pub zip32_derivation: Option<PcztDerivation>,
    pub dummy_ask: Option<[u8; 32]>,
    pub proprietary: BTreeMap<String, Vec<u8>>,
}

/// A Sapling output.
pub struct SaplingPcztOutput {
    pub cv: [u8; 32],
    pub cmu: [u8; 32],
    pub ephemeral_key: [u8; 32],
    pub enc_ciphertext: Vec<u8>,
    pub out_ciphertext: Vec<u8>,
    pub zkproof: Option<[u8; 192]>,
    pub recipient: Option<[u8; 43]>,
    pub value: Option<u64>,
    pub rseed: Option<[u8; 32]>,
    pub rcv: Option<[u8; 32]>,
    pub ock: Option<[u8; 32]>,
    pub zip32_derivation: Option<PcztDerivation>,
    pub user_address: Option<String>,
    pub proprietary: BTreeMap<String, Vec<u8>>,
}

/// A Sapling bundle.
pub struct SaplingPcztBundle {
    pub spends: Vec<SaplingPcztSpend>,
    pub outputs: Vec<SaplingPcztOutput>,
    /// The value of the spends less that of the outputs.
    pub value_sum: i128,
    pub anchor: [u8; 32],
    pub bsk: Option<[u8; 32]>,
}

/// What a spend consists of.
pub struct SaplingSpendView {
    pub cv: [u8; 32],
    pub nullifier: [u8; 32],
    pub rk: [u8; 32],
    pub zkproof: Option<[u8; 192]>,
    pub spend_auth_sig: Option<[u8; 64]>,
    pub recipient: Option<[u8; 43]>,
    pub value: Option<u64>,
    pub rcm: Option<[u8; 32]>,
    pub rseed: Option<[u8; 32]>,
    pub rcv: Option<[u8; 32]>,
    pub proof_generation_key: Option<([u8; 32], [u8; 32])>,
    pub witness: Option<(u32, [[u8; 32]; 32])>,
    pub alpha: Option<[u8; 32]>,
    pub zip32_derivation: Option<DerivationView>,
    pub dummy_ask: Option<[u8; 32]>,
    pub proprietary: Map<String, Vec<u8>>,
}

/// What an output consists of.
pub struct SaplingOutputView {
    pub cv: [u8; 32],
    pub cmu: [u8; 32],
    pub ephemeral_key: [u8; 32],
    pub enc_ciphertext: Seq<u8>,
    pub out_ciphertext: Seq<u8>,
    pub zkproof: Option<[u8; 192]>,
    pub recipient: Option<[u8; 43]>,
    pub value: Option<u64>,
    pub rseed: Option<[u8; 32]>,
    pub rcv: Option<[u8; 32]>,
    pub ock: Option<[u8; 32]>,
    pub zip32_derivation: Option<DerivationView>,
    pub user_address: Option<Seq<char>>,
    pub proprietary: Map<String, Vec<u8>>,
}

/// What a bundle consists of.
pub struct SaplingBundleView {
    pub spends: Seq<SaplingSpendView>,
    pub outputs: Seq<SaplingOutputView>,
    pub value_sum: i128,
    pub anchor: [u8; 32],
    pub bsk: Option<[u8; 32]>,
}

impl View for SaplingPcztSpend {
    type V = SaplingSpendView;

    open spec fn view(&self) -> SaplingSpendView {
        SaplingSpendView {
            cv: self.cv,
            nullifier: self.nullifier,
            rk: self.rk,
            zkproof: self.zkproof,
            spend_auth_sig: self.spend_auth_sig,
            recipient: self.recipient,
            value: self.value,
            rcm: self.rcm,
            rseed: self.rseed,
            rcv: self.rcv,
            proof_generation_key: self.proof_generation_key,
            witness: self.witness,
            alpha: self.alpha,
            zip32_derivation: derivation_view(self.zip32_derivation),
            dummy_ask: self.dummy_ask,
            proprietary: self.proprietary@,
        }
    }
}

impl View for SaplingPcztOutput {
    type V = SaplingOutputView;

    open spec fn view(&self) -> SaplingOutputView {
        SaplingOutputView {
            cv: self.cv,
            cmu: self.cmu,
            ephemeral_key: self.ephemeral_key,
            enc_ciphertext: self.enc_ciphertext@,
            out_ciphertext: self.out_ciphertext@,
            zkproof: self.zkproof,
            recipient: self.recipient,
            value: self.value,
            rseed: self.rseed,
            rcv: self.rcv,
            ock: self.ock,
            zip32_derivation: derivation_view(self.zip32_derivation),
            user_address: match self.user_address {
                Some(address) => Some(address@),
                None => None,
            },
            proprietary: self.proprietary@,
        }
    }
}

impl View for SaplingPcztBundle {
    type V = SaplingBundleView;

    open spec fn view(&self) -> SaplingBundleView {
        SaplingBundleView {
            spends: self.spends@.map_values(|s: SaplingPcztSpend| s@),
            outputs: self.outputs@.map_values(|o: SaplingPcztOutput| o@),
            value_sum: self.value_sum,
            anchor: self.anchor,
            bsk: self.bsk,
        }
    }
}

/// Whether the parts of a Sapling spend are what they should be.
pub uninterp spec fn sapling_spend_parses(spend: SaplingSpendView) -> bool;

/// Whether the parts of a Sapling output are what they should be.
pub uninterp spec fn sapling_output_parses(output: SaplingOutputView) -> bool;

/// What is wrong with a Sapling bundle.
pub enum SaplingFault {
    /// The key that proofs are made with does not hold a point.
    ProofGenerationKey,
    /// The key of a dummy spend is not a scalar.
    DummyKey,
    /// Another part is not what it should be.
    Part,
}

/// Why a Sapling bundle cannot be parsed.
#[derive(Debug)]
pub enum SaplingParseError {
    /// The key that proofs are made with does not hold a point.
    InvalidProofGenerationKey,
    /// The key of a dummy spend is not a scalar.
    InvalidDummySpendAuthorizingKey,
    /// Another part is not what it should be.
    Part(sapling_crypto::pczt::ParseError),
}

impl SaplingParseError {
    /// What is wrong with the bundle.
    pub open spec fn fault(self) -> SaplingFault {
        match self {
            SaplingParseError::InvalidProofGenerationKey => SaplingFault::ProofGenerationKey,
            SaplingParseError::InvalidDummySpendAuthorizingKey => SaplingFault::DummyKey,
            SaplingParseError::Part(_) => SaplingFault::Part,
        }
    }
}

impl SaplingSpendView {
    /// Whether the keys of the spend can be parsed at all.
    pub open spec fn keys_encoded(self) -> bool {
        &&& self.proof_generation_key matches Some((ak, _)) ==> jubjub_point_encoded(ak@)
        &&& self.dummy_ask matches Some(ask) ==> jubjub_scalar_canonical(ask@)
    }

    /// The spend with nothing from the key on that proofs are made with.
    pub open spec fn before_keys(self) -> SaplingSpendView {
        SaplingSpendView {
            proof_generation_key: None,
            witness: None,
            alpha: None,
            dummy_ask: None,
            ..self
        }
    }

    /// The spend without the key of a dummy spend.
    pub open spec fn before_dummy_key(self) -> SaplingSpendView {
        SaplingSpendView { dummy_ask: None, ..self }
    }

    /// The first thing that is wrong with the spend: the parts are looked at in their order, the
    /// derivation before all others.
    pub open spec fn fault(self) -> Option<SaplingFault> {
        if self.zip32_derivation matches Some(d) && !d.hardened() {
            Some(SaplingFault::Part)
        } else if self.proof_generation_key matches Some((ak, _)) && !jubjub_point_encoded(ak@) {
            if sapling_spend_parses(self.before_keys()) {
                Some(SaplingFault::ProofGenerationKey)
            } else {
                Some(SaplingFault::Part)
            }
        } else if self.dummy_ask matches Some(ask) && !jubjub_scalar_canonical(ask@) {
            if sapling_spend_parses(self.before_dummy_key()) {
                Some(SaplingFault::DummyKey)
            } else {
                Some(SaplingFault::Part)
            }
        } else if sapling_spend_parses(self) {
            None
        } else {
            Some(SaplingFault::Part)
        }
    }
}

impl SaplingOutputView {
    /// Whether all parts of the output are what they should be.
    pub open spec fn parses(self) -> bool {
        &&& self.zip32_derivation matches Some(d) ==> d.hardened()
        &&& sapling_output_parses(self)
    }
}

/// What is wrong with the first spend with which anything is wrong.
pub open spec fn first_fault(spends: Seq<SaplingSpendView>) -> Option<SaplingFault>
    decreases spends.len(),
{
    if spends.len() == 0 {
        None
    } else {
        match first_fault(spends.drop_last()) {
            Some(fault) => Some(fault),
            None => spends.last().fault(),
        }
    }
}

impl SaplingBundleView {
    /// What is wrong with the bundle: with its spends first, then with the rest.
    pub open spec fn fault(self) -> Option<SaplingFault> {
        if first_fault(self.spends) is Some {
            first_fault(self.spends)
        } else if (forall|i: int|
            0 <= i < self.outputs.len() ==> (#[trigger] self.outputs[i]).parses())
            && jubjub_base_canonical(self.anchor@) && (self.bsk matches Some(bsk)
            ==> jubjub_scalar_canonical(bsk@)) {
            None
        } else {
            Some(SaplingFault::Part)
        }
    }
}

/// What is wrong with the first spends is wrong with all.
proof fn lemma_first_fault_kept(spends: Seq<SaplingSpendView>, n: int)
    requires
        0 <= n <= spends.len(),
        first_fault(spends.take(n)) is Some,
    ensures
        first_fault(spends) == first_fault(spends.take(n)),
    decreases spends.len(),
{
    if n < spends.len() {
        assert(spends.drop_last().take(n) =~= spends.take(n));
        lemma_first_fault_kept(spends.drop_last(), n);
    } else {
        assert(spends.take(n) =~= spends);
    }
}

/// Parses a derivation path.
///
/// This is `sapling_crypto::pczt::Zip32Derivation::parse`, which refuses a path with a step that
/// is not hardened and accepts all others.
#[verifier::external_body]
fn parse_sapling_derivation(derivation: &PcztDerivation) -> (r: Result<
    sapling_crypto::pczt::Zip32Derivation,
    sapling_crypto::pczt::ParseError,
>)
    ensures
        r is Ok == derivation@.hardened(),
{
    sapling_crypto::pczt::Zip32Derivation::parse(
        derivation.seed_fingerprint,
        derivation.derivation_path.clone(),
    )
}

/// Parses a spend.
///
/// This is `sapling_crypto::pczt::Spend::parse`; whether it succeeds is a function of the parts
/// of the spend. The derivation is only stored. It does not return at all where the first part of
/// the key that proofs are made with encodes no point, or the key of a dummy spend no scalar.
#[verifier::external_body]
fn parse_sapling_spend(
    spend: &SaplingPcztSpend,
    derivation: Option<sapling_crypto::pczt::Zip32Derivation>,
) -> (r: Result<sapling_crypto::pczt::Spend, sapling_crypto::pczt::ParseError>)
    requires
        spend@.keys_encoded(),
    ensures
        r is Ok == sapling_spend_parses(spend@),
{
    sapling_crypto::pczt::Spend::parse(
        spend.cv, spend.nullifier, spend.rk, spend.zkproof, spend.spend_auth_sig, spend.recipient,
        spend.value, spend.rcm, spend.rseed, spend.rcv, spend.proof_generation_key, spend.witness,
        spend.alpha, derivation, spend.dummy_ask, spend.proprietary.clone())
}

/// Parses an output.
///
/// This is `sapling_crypto::pczt::Output::parse`; whether it succeeds is a function of the parts
/// of the output. The derivation is only stored.
#[verifier::external_body]
fn parse_sapling_output(
    output: &SaplingPcztOutput,
    derivation: Option<sapling_crypto::pczt::Zip32Derivation>,
) -> (r: Result<sapling_crypto::pczt::Output, sapling_crypto::pczt::ParseError>)
    ensures
        r is Ok == sapling_output_parses(output@),
{
    sapling_crypto::pczt::Output::parse(
        output.cv, output.cmu, output.ephemeral_key, output.enc_ciphertext.clone(),
        output.out_ciphertext.clone(), output.zkproof, output.recipient, output.value,
        output.rseed, output.rcv, output.ock, derivation, output.user_address.clone(),
        output.proprietary.clone())
}

/// Parses a bundle, the spends and outputs of which have been parsed.
///
/// This is `sapling_crypto::pczt::Bundle::parse`, which accepts every anchor that is the canonical
/// encoding of an element of the base field of Jubjub, with a key that is the canonical encoding
/// of a scalar of Jubjub, or with none. The rest is only stored.
#[verifier::external_body]
fn parse_sapling_bundle(
    spends: Vec<sapling_crypto::pczt::Spend>,
    outputs: Vec<sapling_crypto::pczt::Output>,
    value_sum: i128,
    anchor: &[u8; 32],
    bsk: &Option<[u8; 32]>,
) -> (r: Result<sapling_crypto::pczt::Bundle, sapling_crypto::pczt::ParseError>)
    ensures
        r is Ok == (jubjub_base_canonical(anchor@) && (*bsk matches Some(bsk)
            ==> jubjub_scalar_canonical(bsk@))),
{
    sapling_crypto::pczt::Bundle::parse(spends, outputs, value_sum, *anchor, *bsk)
}

/// The root of the subtree of a Sapling note commitment tree that holds no notes, by the height of
/// the subtree.
pub uninterp spec fn sapling_empty_root(level: u8) -> [u8; 32];

/// The root of the empty subtree of a height.
///
/// This is `empty_root`, which `sapling_crypto::Node` has from `incrementalmerkletree::Hashable`.
/// At the height of the whole tree, 32, it is the anchor `sapling_crypto::Anchor::empty_tree`.
#[verifier::external_body]
pub(crate) fn empty_sapling_root(level: u8) -> (r: [u8; 32])
    requires
        level <= 32,
    ensures
        r == sapling_empty_root(level),
{
    sapling_crypto::Node::empty_root(Level::from(level)).to_bytes()
}

/// A Sapling bundle without spends and outputs.
pub open spec fn empty_sapling_view(anchor: [u8; 32]) -> SaplingBundleView {
    SaplingBundleView {
        spends: Seq::empty(),
        outputs: Seq::empty(),
        value_sum: 0,
        anchor,
        bsk: None,
    }
}

/// A Sapling bundle without spends and outputs.
pub(crate) fn empty_sapling_bundle(anchor: [u8; 32]) -> (r: SaplingPcztBundle)
    ensures
        r@ == empty_sapling_view(anchor),
{
    let r = SaplingPcztBundle {
        spends: Vec::new(),
        outputs: Vec::new(),
        value_sum: 0,
        anchor,
        bsk: None,
    };
    assert(r@.spends =~= Seq::empty());
    assert(r@.outputs =~= Seq::empty());
    r
}

impl SaplingPcztSpend {
    /// A copy.
    fn copy(&self) -> (r: SaplingPcztSpend)
        ensures
            r@ == self@,
    {
        SaplingPcztSpend {
            cv: self.cv,
            nullifier: self.nullifier,
            rk: self.rk,
            zkproof: self.zkproof,
            spend_auth_sig: self.spend_auth_sig,
            recipient: self.recipient,
            value: self.value,
            rcm: self.rcm,
            rseed: self.rseed,
            rcv: self.rcv,
            proof_generation_key: self.proof_generation_key,
            witness: self.witness,
            alpha: self.alpha,
            zip32_derivation: copy_derivation(&self.zip32_derivation),
            dummy_ask: self.dummy_ask,
            proprietary: self.proprietary.clone(),
        }
    }

    /// Parses the spend.
    fn parse(&self) -> (r: Result<sapling_crypto::pczt::Spend, SaplingParseError>)
        ensures
            match r {
                Ok(_) => self@.fault() is None,
                Err(e) => self@.fault() == Some(e.fault()),
            },
    {
        let derivation = match &self.zip32_derivation {
            Some(derivation) => match parse_sapling_derivation(derivation) {
                Ok(derivation) => Some(derivation),
                Err(e) => {
                    return Err(SaplingParseError::Part(e));
                },
            },
            None => None,
        };
        let proof_key_encoded: bool = match &self.proof_generation_key {
            Some((ak, _)) => is_jubjub_point(ak),
            None => true,
        };
        let dummy_key_encoded: bool = match &self.dummy_ask {
            Some(ask) => is_jubjub_scalar(ask),
            None => true,
        };
        if !proof_key_encoded {
            let before = SaplingPcztSpend {
                proof_generation_key: None,
                witness: None,
                alpha: None,
                dummy_ask: None,
                ..self.copy()
            };
            assert(before@ == self@.before_keys());
            return match parse_sapling_spend(&before, derivation) {
                Ok(_) => Err(SaplingParseError::InvalidProofGenerationKey),
                Err(e) => Err(SaplingParseError::Part(e)),
            };
        }
        if !dummy_key_encoded {
            let before = SaplingPcztSpend { dummy_ask: None, ..self.copy() };
            assert(before@ == self@.before_dummy_key());
            return match parse_sapling_spend(&before, derivation) {
                Ok(_) => Err(SaplingParseError::InvalidDummySpendAuthorizingKey),
                Err(e) => Err(SaplingParseError::Part(e)),
            };
        }
        match parse_sapling_spend(self, derivation) {
            Ok(spend) => Ok(spend),
            Err(e) => Err(SaplingParseError::Part(e)),
        }
    }
}

impl SaplingPcztOutput {
    /// A copy.
    fn copy(&self) -> (r: SaplingPcztOutput)
        ensures
            r@ == self@,
    {
        SaplingPcztOutput {
            cv: self.cv,
            cmu: self.cmu,
            ephemeral_key: self.ephemeral_key,
            enc_ciphertext: copy_bytes(self.enc_ciphertext.as_slice()),
            out_ciphertext: copy_bytes(self.out_ciphertext.as_slice()),
            zkproof: self.zkproof,
            recipient: self.recipient,
            value: self.value,
            rseed: self.rseed,
            rcv: self.rcv,
            ock: self.ock,
            zip32_derivation: copy_derivation(&self.zip32_derivation),
            user_address: match &self.user_address {
                Some(address) => Some(address.clone()),
                None => None,
            },
            proprietary: self.proprietary.clone(),
        }
    }

    /// Parses the output.
    fn parse(&self) -> (r: Result<sapling_crypto::pczt::Output, sapling_crypto::pczt::ParseError>)
        ensures
            r is Ok == self@.parses(),
    {
        let derivation = match &self.zip32_derivation {
            Some(derivation) => match parse_sapling_derivation(derivation) {
                Ok(derivation) => Some(derivation),
                Err(e) => {
                    return Err(e);
                },
            },
            None => None,
        };
        parse_sapling_output(self, derivation)
    }
}

impl SaplingPcztBundle {
    /// A copy.
    pub fn copy(&self) -> (r: SaplingPcztBundle)
        ensures
            r@ == self@,
    {
        let mut spends: Vec<SaplingPcztSpend> = Vec::new();
        let mut i: usize = 0;
        while i < self.spends.len()
            invariant
                i <= self.spends@.len(),
                spends@.len() == i,
                forall|k: int| 0 <= k < i ==> (#[trigger] spends@[k])@ == self.spends@[k]@,
            decreases self.spends@.len() - i,
        {
            spends.push(self.spends[i].copy());
            i = i + 1;
        }
        assert(spends@.map_values(|s: SaplingPcztSpend| s@) =~= self@.spends);
        let mut outputs: Vec<SaplingPcztOutput> = Vec::new();
        let mut i: usize = 0;
        while i < self.outputs.len()
            invariant
                i <= self.outputs@.len(),
                outputs@.len() == i,
                forall|k: int| 0 <= k < i ==> (#[trigger] outputs@[k])@ == self.outputs@[k]@,
            decreases self.outputs@.len() - i,
        {
            outputs.push(self.outputs[i].copy());
            i = i + 1;
        }
        assert(outputs@.map_values(|o: SaplingPcztOutput| o@) =~= self@.outputs);
        SaplingPcztBundle {
            spends,
            outputs,
            value_sum: self.value_sum,
            anchor: self.anchor,
            bsk: self.bsk,
        }
    }

    /// Checks that the bundle can be parsed.
    pub fn check_parses(&self) -> (r: Result<(), SaplingParseError>)
        ensures
            match r {
                Ok(_) => self@.fault() is None,
                Err(e) => self@.fault() == Some(e.fault()),
            },
    {
        let mut spends: Vec<sapling_crypto::pczt::Spend> = Vec::new();
        let mut i: usize = 0;
        while i < self.spends.len()
            invariant
                i <= self.spends@.len(),
                first_fault(self@.spends.take(i as int)) is None,
            decreases self.spends@.len() - i,
        {
            proof {
                let next = self@.spends.take(i + 1);
                assert(next.drop_last() =~= self@.spends.take(i as int));
                assert(next.last() == self.spends@[i as int]@);
            }
            match self.spends[i].parse() {
                Ok(spend) => {
                    spends.push(spend);
                },
                Err(e) => {
                    proof {
                        lemma_first_fault_kept(self@.spends, i + 1);
                    }
                    return Err(e);
                },
            }
            i = i + 1;
        }
        assert(self@.spends.take(i as int) =~= self@.spends);
        let mut outputs: Vec<sapling_crypto::pczt::Output> = Vec::new();
        let mut i: usize = 0;
        while i < self.outputs.len()
            invariant
                i <= self.outputs@.len(),
                first_fault(self@.spends) is None,
                forall|k: int| 0 <= k < i ==> (#[trigger] self@.outputs[k]).parses(),
            decreases self.outputs@.len() - i,
        {
            assert(self@.outputs[i as int] == self.outputs@[i as int]@);
            match self.outputs[i].parse() {
                Ok(output) => {
                    outputs.push(output);
                },
                Err(e) => {
                    return Err(SaplingParseError::Part(e));
                },
            }
            i = i + 1;
        }
        match parse_sapling_bundle(spends, outputs, self.value_sum, &self.anchor, &self.bsk) {
            Ok(_) => Ok(()),
            Err(e) => Err(SaplingParseError::Part(e)),
        }
    }
}

} // verus!
