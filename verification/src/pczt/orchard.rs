//! The Orchard-shaped bundles of a partially created transaction.

use std::collections::BTreeMap;

use incrementalmerkletree::Hashable;
use incrementalmerkletree::Level;
use vstd::prelude::*;

use crate::field::copy_bytes;
use crate::field::pallas_base_canonical;
use crate::field::pallas_scalar_canonical;
use crate::pool::lemma_flags_read_write;
use crate::pool::lemma_flags_write_read;
use crate::pool::BundleVersion;
use crate::pool::Flags;
use crate::pool::NoteVersion;

use super::common::VersionError;

verus! {

/// Why a part of a bundle could not be parsed.
#[verifier::external_type_specification]
#[verifier::external_body]
pub struct ExParseError(::orchard::pczt::ParseError);

/// A parsed derivation path.
#[verifier::external_type_specification]
#[verifier::external_body]
pub struct ExDerivation(::orchard::pczt::Zip32Derivation);

/// A parsed spend.
#[verifier::external_type_specification]
#[verifier::external_body]
pub struct ExSpend(::orchard::pczt::Spend);

/// A parsed output.
#[verifier::external_type_specification]
#[verifier::external_body]
pub struct ExOutput(::orchard::pczt::Output);

/// A parsed action.
#[verifier::external_type_specification]
#[verifier::external_body]
pub struct ExAction(::orchard::pczt::Action);

/// Where a key is found: the seed and the path from it.
pub struct PcztDerivation {
    pub seed_fingerprint: [u8; 32],
    pub derivation_path: Vec<u32>,
}

/// The half of an action that spends a note.
pub struct PcztSpend {
    pub nullifier: [u8; 32],
    pub rk: [u8; 32],
    pub spend_auth_sig: Option<[u8; 64]>,
    pub recipient: Option<[u8; 43]>,
    pub value: Option<u64>,
    pub rho: Option<[u8; 32]>,
    pub rseed: Option<[u8; 32]>,
    pub fvk: Option<[u8; 96]>,
    pub witness: Option<(u32, [[u8; 32]; 32])>,
    pub alpha: Option<[u8; 32]>,
    pub zip32_derivation: Option<PcztDerivation>,
    pub dummy_sk: Option<[u8; 32]>,
    pub note_version: NoteVersion,
    pub proprietary: BTreeMap<String, Vec<u8>>,
}

/// The half of an action that creates a note.
pub struct PcztOutput {
    pub cmx: [u8; 32],
    pub ephemeral_key: [u8; 32],
    pub enc_ciphertext: Vec<u8>,
    pub out_ciphertext: Vec<u8>,
    pub recipient: Option<[u8; 43]>,
    pub value: Option<u64>,
    pub rseed: Option<[u8; 32]>,
    pub ock: Option<[u8; 32]>,
    pub zip32_derivation: Option<PcztDerivation>,
    pub user_address: Option<String>,
    pub note_version: NoteVersion,
    pub proprietary: BTreeMap<String, Vec<u8>>,
}

/// An action.
pub struct PcztAction {
    pub cv_net: [u8; 32],
    pub spend: PcztSpend,
    pub output: PcztOutput,
    pub rcv: Option<[u8; 32]>,
}

/// A bundle as it is passed between roles.
pub struct PcztBundle {
    pub actions: Vec<PcztAction>,
    /// The byte that stands for the flags.
    pub flags: u8,
    /// The sum of the values of all actions: its magnitude, and whether it is negative.
    pub value_sum: (u64, bool),
    pub anchor: [u8; 32],
    pub zkproof: Option<Vec<u8>>,
    pub bsk: Option<[u8; 32]>,
}

/// A bundle of which all parts have been parsed.
pub struct ParsedBundle {
    pub actions: Vec<PcztAction>,
    pub flags: Flags,
    /// The sum of the values of all actions: its magnitude, and whether it is negative.
    pub value_sum: (u64, bool),
    pub anchor: [u8; 32],
    pub zkproof: Option<Vec<u8>>,
    pub bsk: Option<[u8; 32]>,
}

/// What a derivation consists of.
pub struct DerivationView {
    pub seed_fingerprint: [u8; 32],
    pub derivation_path: Seq<u32>,
}

/// What a spend consists of.
pub struct SpendView {
    pub nullifier: [u8; 32],
    pub rk: [u8; 32],
    pub spend_auth_sig: Option<[u8; 64]>,
    pub recipient: Option<[u8; 43]>,
    pub value: Option<u64>,
    pub rho: Option<[u8; 32]>,
    pub rseed: Option<[u8; 32]>,
    pub fvk: Option<[u8; 96]>,
    pub witness: Option<(u32, [[u8; 32]; 32])>,
    pub alpha: Option<[u8; 32]>,
    pub zip32_derivation: Option<DerivationView>,
    pub dummy_sk: Option<[u8; 32]>,
    pub note_version: NoteVersion,
    pub proprietary: Map<String, Vec<u8>>,
}

/// What an output consists of.
pub struct OutputView {
    pub cmx: [u8; 32],
    pub ephemeral_key: [u8; 32],
    pub enc_ciphertext: Seq<u8>,
    pub out_ciphertext: Seq<u8>,
    pub recipient: Option<[u8; 43]>,
    pub value: Option<u64>,
    pub rseed: Option<[u8; 32]>,
    pub ock: Option<[u8; 32]>,
    pub zip32_derivation: Option<DerivationView>,
    pub user_address: Option<Seq<char>>,
    pub note_version: NoteVersion,
    pub proprietary: Map<String, Vec<u8>>,
}

/// What an action consists of.
pub struct ActionView {
    pub cv_net: [u8; 32],
    pub spend: SpendView,
    pub output: OutputView,
    pub rcv: Option<[u8; 32]>,
}

/// What a bundle consists of.
pub struct BundleView {
    pub actions: Seq<ActionView>,
    pub flags: u8,
    pub value_sum: (u64, bool),
    pub anchor: [u8; 32],
    pub zkproof: Option<Seq<u8>>,
    pub bsk: Option<[u8; 32]>,
}

/// What a parsed bundle consists of.
pub struct ParsedView {
    pub actions: Seq<ActionView>,
    pub flags: Flags,
    pub value_sum: (u64, bool),
    pub anchor: [u8; 32],
    pub zkproof: Option<Seq<u8>>,
    pub bsk: Option<[u8; 32]>,
}

impl View for PcztDerivation {
    type V = DerivationView;

    open spec fn view(&self) -> DerivationView {
        DerivationView {
            seed_fingerprint: self.seed_fingerprint,
            derivation_path: self.derivation_path@,
        }
    }
}

/// What a derivation that may be missing consists of.
pub open spec fn derivation_view(derivation: Option<PcztDerivation>) -> Option<DerivationView> {
    match derivation {
        Some(derivation) => Some(derivation@),
        None => None,
    }
}

/// The bytes of a vector that may be missing.
pub open spec fn bytes_view(bytes: Option<Vec<u8>>) -> Option<Seq<u8>> {
    match bytes {
        Some(bytes) => Some(bytes@),
        None => None,
    }
}

impl View for PcztSpend {
    type V = SpendView;

    open spec fn view(&self) -> SpendView {
        SpendView {
            nullifier: self.nullifier,
            rk: self.rk,
            spend_auth_sig: self.spend_auth_sig,
            recipient: self.recipient,
            value: self.value,
            rho: self.rho,
            rseed: self.rseed,
            fvk: self.fvk,
            witness: self.witness,
            alpha: self.alpha,
            zip32_derivation: derivation_view(self.zip32_derivation),
            dummy_sk: self.dummy_sk,
            note_version: self.note_version,
            proprietary: self.proprietary@,
        }
    }
}

impl View for PcztOutput {
    type V = OutputView;

    open spec fn view(&self) -> OutputView {
        OutputView {
            cmx: self.cmx,
            ephemeral_key: self.ephemeral_key,
            enc_ciphertext: self.enc_ciphertext@,
            out_ciphertext: self.out_ciphertext@,
            recipient: self.recipient,
            value: self.value,
            rseed: self.rseed,
            ock: self.ock,
            zip32_derivation: derivation_view(self.zip32_derivation),
            user_address: match self.user_address {
                Some(address) => Some(address@),
                None => None,
            },
            note_version: self.note_version,
            proprietary: self.proprietary@,
        }
    }
}

impl View for PcztAction {
    type V = ActionView;

    open spec fn view(&self) -> ActionView {
        ActionView {
            cv_net: self.cv_net,
            spend: self.spend@,
            output: self.output@,
            rcv: self.rcv,
        }
    }
}

impl View for PcztBundle {
    type V = BundleView;

    open spec fn view(&self) -> BundleView {
        BundleView {
            actions: self.actions@.map_values(|a: PcztAction| a@),
            flags: self.flags,
            value_sum: self.value_sum,
            anchor: self.anchor,
            zkproof: bytes_view(self.zkproof),
            bsk: self.bsk,
        }
    }
}

impl View for ParsedBundle {
    type V = ParsedView;

    open spec fn view(&self) -> ParsedView {
        ParsedView {
            actions: self.actions@.map_values(|a: PcztAction| a@),
            flags: self.flags,
            value_sum: self.value_sum,
            anchor: self.anchor,
            zkproof: bytes_view(self.zkproof),
            bsk: self.bsk,
        }
    }
}

impl DerivationView {
    /// Whether all steps of the path are hardened.
    pub open spec fn hardened(self) -> bool {
        forall|i: int|
            0 <= i < self.derivation_path.len() ==> #[trigger] self.derivation_path[i]
                >= 0x8000_0000
    }
}

/// Whether the parts of a spend are what they should be: elements of their fields, points of
/// their curves, keys and addresses, with `rho` wherever there is a seed.
pub uninterp spec fn spend_parses(spend: SpendView) -> bool;

/// Whether the parts of an output, created beside a spend with the given nullifier, are what they
/// should be.
pub uninterp spec fn output_parses(nullifier: [u8; 32], output: OutputView) -> bool;

/// Whether a value commitment and its randomness are what they should be.
pub uninterp spec fn value_commitment_parses(cv_net: [u8; 32], rcv: Option<[u8; 32]>) -> bool;

impl ActionView {
    /// Whether all parts of the action are what they should be.
    pub open spec fn parses(self) -> bool {
        &&& self.spend.zip32_derivation matches Some(d) ==> d.hardened()
        &&& spend_parses(self.spend)
        &&& self.output.zip32_derivation matches Some(d) ==> d.hardened()
        &&& output_parses(self.spend.nullifier, self.output)
        &&& value_commitment_parses(self.cv_net, self.rcv)
    }
}

/// Parses a derivation path.
///
/// This is `orchard::pczt::Zip32Derivation::parse`, which refuses a path with a step that is not
/// hardened and accepts all others.
#[verifier::external_body]
fn parse_derivation(derivation: &PcztDerivation) -> (r: Result<
    ::orchard::pczt::Zip32Derivation,
    ::orchard::pczt::ParseError,
>)
    ensures
        r is Ok == derivation@.hardened(),
{
    ::orchard::pczt::Zip32Derivation::parse(
        derivation.seed_fingerprint,
        derivation.derivation_path.clone(),
    )
}

/// Parses a spend.
///
/// This is `orchard::pczt::Spend::parse`; whether it succeeds is a function of the parts of the
/// spend, among which the nullifier must be the canonical encoding of an element of the base
/// field of Pallas. The derivation is only stored.
#[verifier::external_body]
fn parse_spend(spend: &PcztSpend, derivation: Option<::orchard::pczt::Zip32Derivation>) -> (r: Result<
    ::orchard::pczt::Spend,
    ::orchard::pczt::ParseError,
>)
    ensures
        r is Ok == spend_parses(spend@),
        r is Ok ==> pallas_base_canonical(spend.nullifier@),
{
    let version = match spend.note_version {
        NoteVersion::V2 => ::orchard::NoteVersion::V2,
        NoteVersion::V3 => ::orchard::NoteVersion::V3,
    };
    ::orchard::pczt::Spend::parse(
        spend.nullifier, spend.rk, spend.spend_auth_sig, spend.recipient, spend.value, spend.rho,
        spend.rseed, spend.fvk, spend.witness, spend.alpha, derivation, spend.dummy_sk, version,
        spend.proprietary.clone())
}

/// Parses an output, created beside a spend with the given nullifier.
///
/// This is `orchard::pczt::Output::parse`; whether it succeeds is a function of the nullifier and
/// of the parts of the output. The derivation is only stored.
#[verifier::external_body]
fn parse_output(
    nullifier: &[u8; 32],
    output: &PcztOutput,
    derivation: Option<::orchard::pczt::Zip32Derivation>,
) -> (r: Result<::orchard::pczt::Output, ::orchard::pczt::ParseError>)
    requires
        pallas_base_canonical(nullifier@),
    ensures
        r is Ok == output_parses(*nullifier, output@),
{
    let version = match output.note_version {
        NoteVersion::V2 => ::orchard::NoteVersion::V2,
        NoteVersion::V3 => ::orchard::NoteVersion::V3,
    };
    ::orchard::pczt::Output::parse(
        ::orchard::note::Nullifier::from_bytes(nullifier).unwrap(), output.cmx,
        output.ephemeral_key, output.enc_ciphertext.clone(), output.out_ciphertext.clone(),
        output.recipient, output.value, output.rseed, output.ock, derivation,
        output.user_address.clone(), version, output.proprietary.clone())
}

/// Parses an action, the halves of which have been parsed.
///
/// This is `orchard::pczt::Action::parse`; whether it succeeds is a function of the value
/// commitment and its randomness. The halves are only stored.
#[verifier::external_body]
fn parse_value_commitment(
    cv_net: &[u8; 32],
    spend: ::orchard::pczt::Spend,
    output: ::orchard::pczt::Output,
    rcv: &Option<[u8; 32]>,
) -> (r: Result<::orchard::pczt::Action, ::orchard::pczt::ParseError>)
    ensures
        r is Ok == value_commitment_parses(*cv_net, *rcv),
{
    ::orchard::pczt::Action::parse(*cv_net, spend, output, *rcv)
}

/// Whether a derivation may be what one that may be missing is parsed to.
spec fn derivation_parsed(
    derivation: Option<PcztDerivation>,
    parsed: Option<::orchard::pczt::Zip32Derivation>,
) -> bool {
    match (derivation, parsed) {
        (Some(derivation), Some(parsed)) => call_ensures(
            parse_derivation,
            (&derivation,),
            Ok::<::orchard::pczt::Zip32Derivation, ::orchard::pczt::ParseError>(parsed),
        ),
        (None, None) => true,
        _ => false,
    }
}

/// Whether an action may be what the parts of an action are parsed to: the derivations, the spend,
/// the output beside its nullifier, and what joins them, each with its own parts.
pub closed spec fn action_parsed(action: &PcztAction, parsed: ::orchard::pczt::Action) -> bool {
    exists|
        spend_derivation: Option<::orchard::pczt::Zip32Derivation>,
        spend: ::orchard::pczt::Spend,
        output_derivation: Option<::orchard::pczt::Zip32Derivation>,
        output: ::orchard::pczt::Output,
    | {
        &&& derivation_parsed(action.spend.zip32_derivation, spend_derivation)
        &&& #[trigger] call_ensures(
            parse_spend,
            (&action.spend, spend_derivation),
            Ok::<::orchard::pczt::Spend, ::orchard::pczt::ParseError>(spend),
        )
        &&& derivation_parsed(action.output.zip32_derivation, output_derivation)
        &&& #[trigger] call_ensures(
            parse_output,
            (&action.spend.nullifier, &action.output, output_derivation),
            Ok::<::orchard::pczt::Output, ::orchard::pczt::ParseError>(output),
        )
        &&& call_ensures(
            parse_value_commitment,
            (&action.cv_net, spend, output, &action.rcv),
            Ok::<::orchard::pczt::Action, ::orchard::pczt::ParseError>(parsed),
        )
    }
}

/// Whether bytes encode an Orchard anchor.
///
/// This is whether `orchard::Anchor::from_bytes` returns one, which it does for the canonical
/// encodings of elements of the base field of Pallas.
#[verifier::external_body]
pub(crate) fn is_orchard_anchor(anchor: &[u8; 32]) -> (r: bool)
    ensures
        r == pallas_base_canonical(anchor@),
{
    ::orchard::Anchor::from_bytes(*anchor).is_some().into()
}

/// Whether bytes encode a key that signs the balance of a bundle.
///
/// This is whether `orchard::primitives::redpallas::SigningKey::try_from` returns one, which it
/// does for the canonical encodings of scalars of Pallas.
#[verifier::external_body]
fn is_binding_key(bsk: &[u8; 32]) -> (r: bool)
    ensures
        r == pallas_scalar_canonical(bsk@),
{
    ::orchard::primitives::redpallas::SigningKey::<
        ::orchard::primitives::redpallas::Binding,
    >::try_from(*bsk).is_ok()
}

/// The root of the subtree of an Orchard-shaped note commitment tree that holds no notes, by the
/// height of the subtree.
pub uninterp spec fn orchard_empty_root(level: u8) -> [u8; 32];

/// The root of the empty subtree of a height.
///
/// This is `empty_root`, which `orchard::tree::MerkleHashOrchard` has from
/// `incrementalmerkletree::Hashable`. At the height of the whole tree, 32, it is the anchor
/// `orchard::Anchor::empty_tree`.
#[verifier::external_body]
fn empty_orchard_root(level: u8) -> (r: [u8; 32])
    requires
        level <= 32,
    ensures
        r == orchard_empty_root(level),
{
    ::orchard::tree::MerkleHashOrchard::empty_root(Level::from(level)).to_bytes()
}

/// The height of a note commitment tree.
pub const TREE_DEPTH: u8 = 32;

/// The anchor of a tree that holds no notes.
pub fn empty_tree_anchor() -> (r: [u8; 32])
    ensures
        r == orchard_empty_root(TREE_DEPTH),
{
    empty_orchard_root(TREE_DEPTH)
}

/// Why a bundle cannot be parsed.
#[derive(Debug)]
pub enum BundleParseError {
    /// The transaction cannot have such a bundle.
    Version(VersionError),
    /// A note is of a version that does not belong to the pool.
    NoteVersion,
    /// A part of an action is not what it should be.
    Part(::orchard::pczt::ParseError),
    /// The flags have bits that mean nothing.
    UnexpectedFlagBitsSet,
    /// The anchor is none.
    InvalidAnchor,
    /// The key that signs the balance is none.
    InvalidBindingKey,
}

/// A sum as it is parsed and serialized, by its magnitude and whether it is negative: zero is not.
pub open spec fn signed_sum(sum: (u64, bool)) -> (u64, bool) {
    (sum.0, sum.1 && sum.0 != 0)
}

/// A sum as it is parsed and serialized.
pub(crate) fn sign_sum(sum: (u64, bool)) -> (r: (u64, bool))
    ensures
        r == signed_sum(sum),
{
    (sum.0, sum.1 && sum.0 != 0)
}

impl BundleView {
    /// Whether all notes are of a version.
    pub open spec fn notes_of(self, version: NoteVersion) -> bool {
        forall|i: int|
            0 <= i < self.actions.len() ==> (#[trigger] self.actions[i]).spend.note_version
                == version && self.actions[i].output.note_version == version
    }

    /// Whether all actions are what they should be.
    pub open spec fn actions_parse(self) -> bool {
        forall|i: int| 0 <= i < self.actions.len() ==> (#[trigger] self.actions[i]).parses()
    }

    /// Whether the key that signs the balance is one, if it is there.
    pub open spec fn binding_key_parses(self) -> bool {
        self.bsk matches Some(bsk) ==> pallas_scalar_canonical(bsk@)
    }

    /// Whether the bundle can be parsed as one of the given version.
    pub open spec fn parses(self, version: BundleVersion) -> bool {
        &&& self.notes_of(version.plaintext_version())
        &&& self.actions_parse()
        &&& Flags::byte_valid(self.flags, version)
        &&& pallas_base_canonical(self.anchor@)
        &&& self.binding_key_parses()
    }

    /// What a bundle of the given version is parsed to.
    pub open spec fn parsed(self, version: BundleVersion) -> ParsedView {
        ParsedView {
            actions: self.actions,
            flags: Flags::of_byte(self.flags, version),
            value_sum: signed_sum(self.value_sum),
            anchor: self.anchor,
            zkproof: self.zkproof,
            bsk: self.bsk,
        }
    }
}

impl BundleParseError {
    /// Whether this is why a bundle cannot be parsed as one of the given version: the first thing
    /// that is wrong with it, in the order of the versions of the notes, the actions, the flags,
    /// the anchor and the key.
    pub open spec fn explains(self, bundle: BundleView, version: BundleVersion) -> bool {
        match self {
            BundleParseError::Version(_) => false,
            BundleParseError::NoteVersion => !bundle.notes_of(version.plaintext_version()),
            BundleParseError::Part(_) => {
                &&& bundle.notes_of(version.plaintext_version())
                &&& !bundle.actions_parse()
            },
            BundleParseError::UnexpectedFlagBitsSet => {
                &&& bundle.notes_of(version.plaintext_version())
                &&& bundle.actions_parse()
                &&& !Flags::byte_valid(bundle.flags, version)
            },
            BundleParseError::InvalidAnchor => {
                &&& bundle.notes_of(version.plaintext_version())
                &&& bundle.actions_parse()
                &&& Flags::byte_valid(bundle.flags, version)
                &&& !pallas_base_canonical(bundle.anchor@)
            },
            BundleParseError::InvalidBindingKey => {
                &&& bundle.notes_of(version.plaintext_version())
                &&& bundle.actions_parse()
                &&& Flags::byte_valid(bundle.flags, version)
                &&& pallas_base_canonical(bundle.anchor@)
                &&& !bundle.binding_key_parses()
            },
        }
    }
}

impl Clone for PcztDerivation {
    fn clone(&self) -> (r: PcztDerivation)
        ensures
            r@ == self@,
    {
        let derivation_path = self.derivation_path.clone();
        assert(derivation_path@ =~= self.derivation_path@);
        PcztDerivation { seed_fingerprint: self.seed_fingerprint, derivation_path }
    }
}

/// A copy of a derivation that may be missing.
pub(crate) fn copy_derivation(derivation: &Option<PcztDerivation>) -> (r: Option<PcztDerivation>)
    ensures
        derivation_view(r) == derivation_view(*derivation),
{
    match derivation {
        Some(derivation) => Some(derivation.clone()),
        None => None,
    }
}

/// A copy of bytes that may be missing.
pub(crate) fn copy_optional_bytes(bytes: &Option<Vec<u8>>) -> (r: Option<Vec<u8>>)
    ensures
        bytes_view(r) == bytes_view(*bytes),
{
    match bytes {
        Some(bytes) => Some(copy_bytes(bytes.as_slice())),
        None => None,
    }
}

impl PcztSpend {
    /// A copy.
    fn copy(&self) -> (r: PcztSpend)
        ensures
            r@ == self@,
    {
        PcztSpend {
            nullifier: self.nullifier,
            rk: self.rk,
            spend_auth_sig: self.spend_auth_sig,
            recipient: self.recipient,
            value: self.value,
            rho: self.rho,
            rseed: self.rseed,
            fvk: self.fvk,
            witness: self.witness,
            alpha: self.alpha,
            zip32_derivation: copy_derivation(&self.zip32_derivation),
            dummy_sk: self.dummy_sk,
            note_version: self.note_version,
            proprietary: self.proprietary.clone(),
        }
    }
}

impl PcztOutput {
    /// A copy.
    fn copy(&self) -> (r: PcztOutput)
        ensures
            r@ == self@,
    {
        PcztOutput {
            cmx: self.cmx,
            ephemeral_key: self.ephemeral_key,
            enc_ciphertext: copy_bytes(self.enc_ciphertext.as_slice()),
            out_ciphertext: copy_bytes(self.out_ciphertext.as_slice()),
            recipient: self.recipient,
            value: self.value,
            rseed: self.rseed,
            ock: self.ock,
            zip32_derivation: copy_derivation(&self.zip32_derivation),
            user_address: match &self.user_address {
                Some(address) => Some(address.clone()),
                None => None,
            },
            note_version: self.note_version,
            proprietary: self.proprietary.clone(),
        }
    }
}

impl PcztAction {
    /// A copy.
    fn copy(&self) -> (r: PcztAction)
        ensures
            r@ == self@,
    {
        PcztAction {
            cv_net: self.cv_net,
            spend: self.spend.copy(),
            output: self.output.copy(),
            rcv: self.rcv,
        }
    }

    /// Parses the action.
    fn parse(&self) -> (r: Result<::orchard::pczt::Action, ::orchard::pczt::ParseError>)
        ensures
            r is Ok == self@.parses(),
            r matches Ok(parsed) ==> action_parsed(self, parsed),
    {
        let derivation_parser = parse_derivation;
        let spend_parser = parse_spend;
        let output_parser = parse_output;
        let action_parser = parse_value_commitment;
        let spend_derivation = match &self.spend.zip32_derivation {
            Some(derivation) => match derivation_parser(derivation) {
                Ok(derivation) => Some(derivation),
                Err(e) => {
                    return Err(e);
                },
            },
            None => None,
        };
        let spend = match spend_parser(&self.spend, spend_derivation) {
            Ok(spend) => spend,
            Err(e) => {
                return Err(e);
            },
        };
        let output_derivation = match &self.output.zip32_derivation {
            Some(derivation) => match derivation_parser(derivation) {
                Ok(derivation) => Some(derivation),
                Err(e) => {
                    return Err(e);
                },
            },
            None => None,
        };
        let output = match output_parser(&self.spend.nullifier, &self.output, output_derivation) {
            Ok(output) => output,
            Err(e) => {
                return Err(e);
            },
        };
        action_parser(&self.cv_net, spend, output, &self.rcv)
    }
}

/// A bundle without actions.
pub(crate) fn empty_bundle(flags: u8, anchor: [u8; 32]) -> (r: PcztBundle)
    ensures
        r@ == empty_bundle_view(flags, anchor),
{
    let r = PcztBundle {
        actions: Vec::new(),
        flags,
        value_sum: (0, true),
        anchor,
        zkproof: None,
        bsk: None,
    };
    assert(r@.actions =~= Seq::empty());
    r
}

/// A bundle without actions.
pub open spec fn empty_bundle_view(flags: u8, anchor: [u8; 32]) -> BundleView {
    BundleView {
        actions: Seq::empty(),
        flags,
        value_sum: (0, true),
        anchor,
        zkproof: None,
        bsk: None,
    }
}

/// The byte that stands for the flags of an Ironwood bundle on which no restriction is put.
pub const IRONWOOD_SPENDS_AND_OUTPUTS_ENABLED: u8 = 0b0000_0111;

/// The Ironwood bundle of a transaction that has none.
pub fn empty_ironwood_bundle() -> (r: PcztBundle)
    ensures
        r@ == empty_bundle_view(
            IRONWOOD_SPENDS_AND_OUTPUTS_ENABLED,
            orchard_empty_root(TREE_DEPTH),
        ),
        IRONWOOD_SPENDS_AND_OUTPUTS_ENABLED
            == BundleVersion::IronwoodV3.unrestricted_flags().byte(BundleVersion::IronwoodV3),
{
    empty_bundle(IRONWOOD_SPENDS_AND_OUTPUTS_ENABLED, empty_tree_anchor())
}

impl PcztBundle {
    /// A copy.
    pub fn copy(&self) -> (r: PcztBundle)
        ensures
            r@ == self@,
    {
        let mut actions: Vec<PcztAction> = Vec::new();
        let mut i: usize = 0;
        while i < self.actions.len()
            invariant
                i <= self.actions@.len(),
                actions@.len() == i,
                forall|k: int| 0 <= k < i ==> (#[trigger] actions@[k])@ == self.actions@[k]@,
            decreases self.actions@.len() - i,
        {
            actions.push(self.actions[i].copy());
            i = i + 1;
        }
        assert(actions@.map_values(|a: PcztAction| a@) =~= self@.actions);
        PcztBundle {
            actions,
            flags: self.flags,
            value_sum: self.value_sum,
            anchor: self.anchor,
            zkproof: copy_optional_bytes(&self.zkproof),
            bsk: self.bsk,
        }
    }

    /// Whether all notes are of a version.
    fn notes_are_of(&self, version: NoteVersion) -> (r: bool)
        ensures
            r == self@.notes_of(version),
    {
        let mut i: usize = 0;
        while i < self.actions.len()
            invariant
                i <= self.actions@.len(),
                forall|k: int|
                    0 <= k < i ==> (#[trigger] self@.actions[k]).spend.note_version == version
                        && self@.actions[k].output.note_version == version,
            decreases self.actions@.len() - i,
        {
            let action = &self.actions[i];
            assert(self@.actions[i as int] == action@);
            if action.spend.note_version != version || action.output.note_version != version {
                return false;
            }
            i = i + 1;
        }
        true
    }

    /// Checks that all notes are of the version that the Orchard pool holds.
    pub fn validate_orchard_note_plaintext_versions(&self) -> (r: Result<(), BundleParseError>)
        ensures
            match r {
                Ok(_) => self@.notes_of(NoteVersion::V2),
                Err(e) => e is NoteVersion && !self@.notes_of(NoteVersion::V2),
            },
    {
        if self.notes_are_of(NoteVersion::V2) {
            Ok(())
        } else {
            Err(BundleParseError::NoteVersion)
        }
    }

    /// Checks that all notes are of the version that the Ironwood pool holds.
    pub fn validate_ironwood_note_plaintext_versions(&self) -> (r: Result<(), BundleParseError>)
        ensures
            match r {
                Ok(_) => self@.notes_of(NoteVersion::V3),
                Err(e) => e is NoteVersion && !self@.notes_of(NoteVersion::V3),
            },
    {
        if self.notes_are_of(NoteVersion::V3) {
            Ok(())
        } else {
            Err(BundleParseError::NoteVersion)
        }
    }

    /// Whether actions may be what those of the bundle are parsed to, one by one.
    pub open spec fn actions_parsed(self, parsed: Seq<::orchard::pczt::Action>) -> bool {
        &&& parsed.len() == self.actions@.len()
        &&& forall|i: int|
            0 <= i < parsed.len() ==> action_parsed(&self.actions@[i], #[trigger] parsed[i])
    }

    /// Parses the actions.
    pub(crate) fn parse_actions(&self) -> (r: Result<
        Vec<::orchard::pczt::Action>,
        ::orchard::pczt::ParseError,
    >)
        ensures
            r is Ok == self@.actions_parse(),
            r matches Ok(parsed) ==> self.actions_parsed(parsed@),
    {
        let mut parsed: Vec<::orchard::pczt::Action> = Vec::new();
        let mut i: usize = 0;
        while i < self.actions.len()
            invariant
                i <= self.actions@.len(),
                parsed@.len() == i,
                forall|k: int| 0 <= k < i ==> (#[trigger] self@.actions[k]).parses(),
                forall|k: int|
                    0 <= k < i ==> action_parsed(&self.actions@[k], #[trigger] parsed@[k]),
            decreases self.actions@.len() - i,
        {
            assert(self@.actions[i as int] == self.actions@[i as int]@);
            match self.actions[i].parse() {
                Ok(action) => {
                    parsed.push(action);
                },
                Err(e) => {
                    return Err(e);
                },
            }
            i = i + 1;
        }
        Ok(parsed)
    }

    /// What the bundle is parsed to.
    pub open spec fn parsed(self, version: BundleVersion) -> ParsedBundle {
        ParsedBundle {
            actions: self.actions,
            flags: Flags::of_byte(self.flags, version),
            value_sum: signed_sum(self.value_sum),
            anchor: self.anchor,
            zkproof: self.zkproof,
            bsk: self.bsk,
        }
    }

    /// The bundle as it comes out of a role that parses and serializes it: what it was, but that a
    /// sum of zero is not negative.
    pub open spec fn passed_on(self) -> PcztBundle {
        PcztBundle { value_sum: signed_sum(self.value_sum), ..self }
    }

    /// Checks that the bundle can be parsed as one of the given version, and gives its flags.
    pub(crate) fn parse_flags(&self, version: BundleVersion) -> (r: Result<Flags, BundleParseError>)
        ensures
            match r {
                Ok(flags) => self@.parses(version) && flags == Flags::of_byte(
                    self.flags,
                    version,
                ),
                Err(e) => e.explains(self@, version),
            },
    {
        if !self.notes_are_of(version.note_version()) {
            return Err(BundleParseError::NoteVersion);
        }
        match self.parse_actions() {
            Ok(_) => {},
            Err(e) => {
                return Err(BundleParseError::Part(e));
            },
        }
        let flags = match Flags::from_byte(self.flags, version) {
            Some(flags) => flags,
            None => {
                return Err(BundleParseError::UnexpectedFlagBitsSet);
            },
        };
        if !is_orchard_anchor(&self.anchor) {
            return Err(BundleParseError::InvalidAnchor);
        }
        match &self.bsk {
            Some(bsk) => if !is_binding_key(bsk) {
                return Err(BundleParseError::InvalidBindingKey);
            },
            None => {},
        }
        Ok(flags)
    }

    /// Parses the bundle as one of the given version.
    fn into_parsed(self, version: BundleVersion) -> (r: Result<ParsedBundle, BundleParseError>)
        ensures
            match r {
                Ok(parsed) => self@.parses(version) && parsed == self.parsed(version),
                Err(e) => e.explains(self@, version),
            },
    {
        match self.parse_flags(version) {
            Ok(flags) => Ok(
                ParsedBundle {
                    actions: self.actions,
                    flags,
                    value_sum: sign_sum(self.value_sum),
                    anchor: self.anchor,
                    zkproof: self.zkproof,
                    bsk: self.bsk,
                },
            ),
            Err(e) => Err(e),
        }
    }

    /// Parses the bundle as one of the Orchard pool.
    pub fn into_parsed_orchard(self, version: BundleVersion) -> (r: Result<
        ParsedBundle,
        BundleParseError,
    >)
        ensures
            match r {
                Ok(parsed) => self@.parses(version) && parsed == self.parsed(version),
                Err(e) => e.explains(self@, version),
            },
    {
        self.into_parsed(version)
    }

    /// Parses the bundle as one of the Ironwood pool.
    pub fn into_parsed_ironwood(self) -> (r: Result<ParsedBundle, BundleParseError>)
        ensures
            match r {
                Ok(parsed) => self@.parses(BundleVersion::IronwoodV3) && parsed == self.parsed(
                    BundleVersion::IronwoodV3,
                ),
                Err(e) => e.explains(self@, BundleVersion::IronwoodV3),
            },
    {
        self.into_parsed(BundleVersion::IronwoodV3)
    }

    /// The form in which a parsed bundle of the given version is passed between roles.
    pub fn serialize_from(bundle: ParsedBundle, version: BundleVersion) -> (r: PcztBundle)
        requires
            bundle.flags.representable(version),
        ensures
            r == bundle.serialized(version),
    {
        let flags: u8 = match bundle.flags.to_byte(version) {
            Some(flags) => flags,
            None => {
                assert(false);
                0
            },
        };
        PcztBundle {
            actions: bundle.actions,
            flags,
            value_sum: sign_sum(bundle.value_sum),
            anchor: bundle.anchor,
            zkproof: bundle.zkproof,
            bsk: bundle.bsk,
        }
    }
}

impl ParsedView {
    /// Whether all notes are of a version.
    pub open spec fn notes_of(self, version: NoteVersion) -> bool {
        forall|i: int|
            0 <= i < self.actions.len() ==> (#[trigger] self.actions[i]).spend.note_version
                == version && self.actions[i].output.note_version == version
    }
}

impl ParsedBundle {
    /// The bundle as it is parsed again once it has been serialized: what it was, but that a sum of
    /// zero is not negative.
    pub open spec fn passed_on(self) -> ParsedBundle {
        ParsedBundle { value_sum: signed_sum(self.value_sum), ..self }
    }

    /// The form in which the bundle is passed between roles.
    pub open spec fn serialized(self, version: BundleVersion) -> PcztBundle {
        PcztBundle {
            actions: self.actions,
            flags: self.flags.byte(version),
            value_sum: signed_sum(self.value_sum),
            anchor: self.anchor,
            zkproof: self.zkproof,
            bsk: self.bsk,
        }
    }
}

/// A bundle that is parsed can be serialized again, and is then what it was, but that a sum of zero
/// is not negative.
pub proof fn lemma_parse_then_serialize(bundle: PcztBundle, version: BundleVersion)
    requires
        bundle@.parses(version),
    ensures
        bundle.parsed(version).flags.representable(version),
        bundle.parsed(version).serialized(version) == bundle.passed_on(),
        bundle.value_sum != (0u64, true) ==> bundle.parsed(version).serialized(version) == bundle,
{
    lemma_flags_read_write(bundle.flags, version);
}

/// A parsed bundle that is serialized is parsed to what it was, but that a sum of zero is not
/// negative, which it is in no bundle that has been parsed.
pub proof fn lemma_serialize_then_parse(bundle: ParsedBundle, version: BundleVersion)
    requires
        bundle.flags.representable(version),
    ensures
        Flags::byte_valid(bundle.serialized(version).flags, version),
        bundle.serialized(version).parsed(version) == bundle.passed_on(),
        bundle.value_sum != (0u64, true) ==> bundle.serialized(version).parsed(version) == bundle,
{
    lemma_flags_write_read(bundle.flags, version);
}

} // verus!
