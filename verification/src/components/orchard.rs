//! Orchard-shaped bundles in their wire format.

use vstd::prelude::*;

use crate::consensus::BranchId;
use crate::field::array_of;
use crate::field::le_value;
use crate::field::pallas_base_canonical;
use crate::pczt::orchard::is_orchard_anchor;
use crate::pool::bundle_version_under;
use crate::pool::orchard_protocol_for_branch;
use crate::pool::BundleVersion;
use crate::pool::Flags;
use crate::scanning::pools::is_orchard_commitment;
use crate::scanning::pools::is_orchard_nullifier;
use crate::value::MAX_MONEY;

use super::encoding::balance_valid;
use super::encoding::compact_bytes;
use super::encoding::compact_size;
use super::encoding::le_bytes;
use super::encoding::lemma_compact_read_write;
use super::encoding::signed;
use super::encoding::take;
use super::encoding::unsigned;
use super::encoding::write_all;
use super::encoding::write_balance;
use super::encoding::write_compact_size;
use super::encoding::ReadError;
use super::encoding::Reader;
use super::encoding::MAX_COMPACT_SIZE;

verus! {

/// The bit that enables spends.
pub const FLAG_SPENDS_ENABLED: u8 = 0b0000_0001;

/// The bit that enables outputs.
pub const FLAG_OUTPUTS_ENABLED: u8 = 0b0000_0010;

/// The bits that neither enables spends nor outputs.
pub const FLAGS_EXPECTED_UNSET: u8 = 0b1111_1100;

/// What a bundle carries to show that it is authorized.
pub trait Authorization {
    /// What each action carries for that.
    type SpendAuth;
}

/// The proof and the signatures of a bundle.
pub struct Authorized {
    pub proof: Vec<u8>,
    pub binding_signature: [u8; 64],
}

impl Authorization for Authorized {
    type SpendAuth = [u8; 64];
}

/// A map from one kind of authorization to another.
pub trait MapAuth<A: Authorization, B: Authorization> {
    /// What the authorization of an action is mapped to.
    spec fn spend_auth_image(&self, s: A::SpendAuth) -> B::SpendAuth;

    /// What the authorization of a bundle is mapped to.
    spec fn authorization_image(&self, a: A) -> B;

    /// Maps the authorization of an action.
    fn map_spend_auth(&self, s: A::SpendAuth) -> (r: B::SpendAuth)
        ensures
            r == self.spend_auth_image(s),
    ;

    /// Maps the authorization of a bundle.
    fn map_authorization(&self, a: A) -> (r: B)
        ensures
            r == self.authorization_image(a),
    ;
}

/// The identity map.
impl MapAuth<Authorized, Authorized> for () {
    open spec fn spend_auth_image(&self, s: [u8; 64]) -> [u8; 64] {
        s
    }

    open spec fn authorization_image(&self, a: Authorized) -> Authorized {
        a
    }

    fn map_spend_auth(&self, s: [u8; 64]) -> (r: [u8; 64]) {
        s
    }

    fn map_authorization(&self, a: Authorized) -> (r: Authorized) {
        a
    }
}

/// An encrypted note.
#[derive(Clone, Copy)]
pub struct TransmittedNoteCiphertext {
    pub epk_bytes: [u8; 32],
    pub enc_ciphertext: [u8; 580],
    pub out_ciphertext: [u8; 80],
}

/// An action, with what it carries to show that it is authorized.
pub struct WireAction<A> {
    pub cv_net: [u8; 32],
    pub nullifier: [u8; 32],
    pub rk: [u8; 32],
    pub cmx: [u8; 32],
    pub encrypted_note: TransmittedNoteCiphertext,
    pub authorization: A,
}

/// A bundle that is authorized.
pub struct WireBundle {
    pub actions: Vec<WireAction<[u8; 64]>>,
    pub flags: Flags,
    pub value_balance: i64,
    pub anchor: [u8; 32],
    pub authorization: Authorized,
}

/// What a bundle consists of.
pub struct WireView {
    pub actions: Seq<WireAction<[u8; 64]>>,
    pub flags: Flags,
    pub value_balance: i64,
    pub anchor: [u8; 32],
    pub proof: Seq<u8>,
    pub binding_signature: [u8; 64],
}

impl View for WireBundle {
    type V = WireView;

    open spec fn view(&self) -> WireView {
        WireView {
            actions: self.actions@,
            flags: self.flags,
            value_balance: self.value_balance,
            anchor: self.anchor,
            proof: self.authorization.proof@,
            binding_signature: self.authorization.binding_signature,
        }
    }
}

/// Whether bytes encode a value commitment.
pub uninterp spec fn value_commitment_encoded(bytes: [u8; 32]) -> bool;

/// Whether bytes encode a verification key.
pub uninterp spec fn verification_key_encoded(bytes: [u8; 32]) -> bool;

/// Whether bytes encode a key that notes can be encrypted with.
pub uninterp spec fn ephemeral_key_encoded(bytes: [u8; 32]) -> bool;

/// Whether bytes encode a value commitment.
///
/// This is whether `orchard::value::ValueCommitment::from_bytes` returns one.
#[verifier::external_body]
fn is_value_commitment(bytes: &[u8; 32]) -> (r: bool)
    ensures
        r == value_commitment_encoded(*bytes),
{
    ::orchard::value::ValueCommitment::from_bytes(bytes).is_some().into()
}

/// Whether bytes encode a verification key.
///
/// This is whether `orchard::primitives::redpallas::VerificationKey::try_from` returns one.
#[verifier::external_body]
fn is_verification_key(bytes: &[u8; 32]) -> (r: bool)
    ensures
        r == verification_key_encoded(*bytes),
{
    ::orchard::primitives::redpallas::VerificationKey::<
        ::orchard::primitives::redpallas::SpendAuth,
    >::try_from(*bytes).is_ok()
}

/// An action that is known to be one.
#[verifier::external_type_specification]
#[verifier::external_body]
#[verifier::reject_recursive_types(A)]
pub struct ExOrchardAction<A>(::orchard::Action<A>);

/// Whether the parts of an action make up one, each of them being what it should be by itself.
///
/// This is whether `orchard::Action::from_parts` returns one, which it does unless the
/// verification key is the identity, which is written as zeros only, or the ephemeral key is not a
/// point other than the identity.
#[verifier::external_body]
pub(crate) fn action_from_parts<A>(action: &WireAction<A>) -> (r: Option<::orchard::Action<()>>)
    requires
        action.parts_encoded(),
    ensures
        r is Some == (action.rk@ != Seq::new(32, |i: int| 0u8) && ephemeral_key_encoded(
            action.encrypted_note.epk_bytes,
        )),
{
    ::orchard::Action::from_parts(
        ::orchard::note::Nullifier::from_bytes(&action.nullifier).unwrap(),
        action.rk.try_into().unwrap(),
        ::orchard::note::ExtractedNoteCommitment::from_bytes(&action.cmx).unwrap(),
        ::orchard::note::TransmittedNoteCiphertext {
            epk_bytes: action.encrypted_note.epk_bytes,
            enc_ciphertext: ::orchard::note_encryption::NoteBytesData(
                action.encrypted_note.enc_ciphertext),
            out_ciphertext: action.encrypted_note.out_ciphertext,
        },
        ::orchard::value::ValueCommitment::from_bytes(&action.cv_net).unwrap(),
        (),
    ).ok()
}

impl<A> WireAction<A> {
    /// Whether each part of the action encodes what it should encode.
    pub open spec fn parts_encoded(self) -> bool {
        &&& value_commitment_encoded(self.cv_net)
        &&& pallas_base_canonical(self.nullifier@)
        &&& verification_key_encoded(self.rk)
        &&& pallas_base_canonical(self.cmx@)
    }

    /// Whether the verification key is not the identity and the ephemeral key can encrypt.
    pub open spec fn keys_usable(self) -> bool {
        &&& self.rk@ != Seq::new(32, |i: int| 0u8)
        &&& ephemeral_key_encoded(self.encrypted_note.epk_bytes)
    }

    /// Whether the action is one.
    pub open spec fn valid(self) -> bool {
        self.parts_encoded() && self.keys_usable()
    }

    /// The bytes of the action, without its authorization.
    pub open spec fn bytes(self) -> Seq<u8> {
        self.cv_net@ + self.nullifier@ + self.rk@ + self.cmx@ + self.encrypted_note.epk_bytes@
            + self.encrypted_note.enc_ciphertext@ + self.encrypted_note.out_ciphertext@
    }
}

/// How many bytes the proof of a bundle takes that has so many actions.
pub open spec fn proof_size(actions: nat) -> nat {
    2720 + 2272 * actions
}

/// How many bytes the proof of a bundle takes that has so many actions.
fn expected_proof_size(actions: usize) -> (r: u64)
    requires
        actions <= MAX_COMPACT_SIZE,
    ensures
        r == proof_size(actions as nat),
{
    2720 + 2272 * (actions as u64)
}

/// Whether reading gave what was expected, and left what was expected.
pub open spec fn gives<T>(
    r: Result<T, ReadError>,
    rest: Seq<u8>,
    expected: Result<(T, Seq<u8>), ReadError>,
) -> bool {
    match expected {
        Ok((value, left)) => r == Ok::<T, ReadError>(value) && rest == left,
        Err(e) => r == Err::<T, ReadError>(e),
    }
}

/// An array at the start of bytes, and the rest.
pub open spec fn array_read<const N: usize>(bytes: Seq<u8>) -> Result<
    ([u8; N], Seq<u8>),
    ReadError,
> {
    match take(bytes, N as nat) {
        Ok((array, rest)) => Ok((array_of::<N>(array), rest)),
        Err(e) => Err(e),
    }
}

/// The encoding of something at the start of bytes, and the rest.
pub open spec fn encoding_read(
    bytes: Seq<u8>,
    encoded: spec_fn([u8; 32]) -> bool,
    otherwise: ReadError,
) -> Result<([u8; 32], Seq<u8>), ReadError> {
    match array_read::<32>(bytes) {
        Ok((array, rest)) => if encoded(array) {
            Ok((array, rest))
        } else {
            Err(otherwise)
        },
        Err(e) => Err(e),
    }
}

/// A value commitment at the start of bytes, and the rest.
pub open spec fn value_commitment_read(bytes: Seq<u8>) -> Result<([u8; 32], Seq<u8>), ReadError> {
    encoding_read(
        bytes,
        |a: [u8; 32]| value_commitment_encoded(a),
        ReadError::InvalidValueCommitment,
    )
}

/// A nullifier at the start of bytes, and the rest.
pub open spec fn nullifier_read(bytes: Seq<u8>) -> Result<([u8; 32], Seq<u8>), ReadError> {
    encoding_read(bytes, |a: [u8; 32]| pallas_base_canonical(a@), ReadError::InvalidNullifier)
}

/// A verification key at the start of bytes, and the rest.
pub open spec fn verification_key_read(bytes: Seq<u8>) -> Result<([u8; 32], Seq<u8>), ReadError> {
    encoding_read(
        bytes,
        |a: [u8; 32]| verification_key_encoded(a),
        ReadError::InvalidVerificationKey,
    )
}

/// A note commitment at the start of bytes, and the rest.
pub open spec fn cmx_read(bytes: Seq<u8>) -> Result<([u8; 32], Seq<u8>), ReadError> {
    encoding_read(bytes, |a: [u8; 32]| pallas_base_canonical(a@), ReadError::InvalidCmx)
}

/// An anchor at the start of bytes, and the rest.
pub open spec fn anchor_read(bytes: Seq<u8>) -> Result<([u8; 32], Seq<u8>), ReadError> {
    encoding_read(bytes, |a: [u8; 32]| pallas_base_canonical(a@), ReadError::InvalidAnchor)
}

/// An encrypted note at the start of bytes, and the rest.
pub open spec fn note_ciphertext_read(bytes: Seq<u8>) -> Result<
    (TransmittedNoteCiphertext, Seq<u8>),
    ReadError,
> {
    match array_read::<32>(bytes) {
        Err(e) => Err(e),
        Ok((epk_bytes, bytes)) => match array_read::<580>(bytes) {
            Err(e) => Err(e),
            Ok((enc_ciphertext, bytes)) => match array_read::<80>(bytes) {
                Err(e) => Err(e),
                Ok((out_ciphertext, bytes)) => Ok(
                    (TransmittedNoteCiphertext { epk_bytes, enc_ciphertext, out_ciphertext }, bytes),
                ),
            },
        },
    }
}

/// An action without its authorization at the start of bytes, and the rest.
pub open spec fn action_read(bytes: Seq<u8>) -> Result<(WireAction<()>, Seq<u8>), ReadError> {
    match value_commitment_read(bytes) {
        Err(e) => Err(e),
        Ok((cv_net, bytes)) => match nullifier_read(bytes) {
            Err(e) => Err(e),
            Ok((nullifier, bytes)) => match verification_key_read(bytes) {
                Err(e) => Err(e),
                Ok((rk, bytes)) => match cmx_read(bytes) {
                    Err(e) => Err(e),
                    Ok((cmx, bytes)) => match note_ciphertext_read(bytes) {
                        Err(e) => Err(e),
                        Ok((encrypted_note, bytes)) => {
                            let action = WireAction {
                                cv_net,
                                nullifier,
                                rk,
                                cmx,
                                encrypted_note,
                                authorization: (),
                            };
                            if action.keys_usable() {
                                Ok((action, bytes))
                            } else {
                                Err(ReadError::InvalidAction)
                            }
                        },
                    },
                },
            },
        },
    }
}

/// So many actions without their authorization at the start of bytes, and the rest.
pub open spec fn actions_read(bytes: Seq<u8>, n: nat) -> Result<
    (Seq<WireAction<()>>, Seq<u8>),
    ReadError,
>
    decreases n,
{
    if n == 0 {
        Ok((Seq::empty(), bytes))
    } else {
        match actions_read(bytes, (n - 1) as nat) {
            Err(e) => Err(e),
            Ok((actions, bytes)) => match action_read(bytes) {
                Err(e) => Err(e),
                Ok((action, bytes)) => Ok((actions.push(action), bytes)),
            },
        }
    }
}

/// So many signatures at the start of bytes, and the rest.
pub open spec fn signatures_read(bytes: Seq<u8>, n: nat) -> Result<
    (Seq<[u8; 64]>, Seq<u8>),
    ReadError,
>
    decreases n,
{
    if n == 0 {
        Ok((Seq::empty(), bytes))
    } else {
        match signatures_read(bytes, (n - 1) as nat) {
            Err(e) => Err(e),
            Ok((signatures, bytes)) => match array_read::<64>(bytes) {
                Err(e) => Err(e),
                Ok((signature, bytes)) => Ok((signatures.push(signature), bytes)),
            },
        }
    }
}

/// Flags at the start of bytes, and the rest.
pub open spec fn flags_read(bytes: Seq<u8>, version: BundleVersion) -> Result<
    (Flags, Seq<u8>),
    ReadError,
> {
    match take(bytes, 1) {
        Err(e) => Err(e),
        Ok((byte, rest)) => if Flags::byte_valid(byte[0], version) {
            Ok((Flags::of_byte(byte[0], version), rest))
        } else {
            Err(ReadError::InvalidFlags)
        },
    }
}

/// A difference of two amounts at the start of bytes, and the rest.
pub open spec fn balance_read(bytes: Seq<u8>) -> Result<(i64, Seq<u8>), ReadError> {
    match take(bytes, 8) {
        Err(e) => Err(e),
        Ok((number, rest)) => if balance_valid(signed(le_value(number))) {
            Ok((signed(le_value(number)) as i64, rest))
        } else {
            Err(ReadError::InvalidAmount)
        },
    }
}

/// A proof at the start of bytes, its size before it, and the rest.
pub open spec fn proof_read(bytes: Seq<u8>) -> Result<(Seq<u8>, Seq<u8>), ReadError> {
    match compact_size(bytes) {
        Err(e) => Err(e),
        Ok((n, bytes)) => take(bytes, n),
    }
}

/// An action with its signature.
pub open spec fn authorize(action: WireAction<()>, signature: [u8; 64]) -> WireAction<[u8; 64]> {
    WireAction {
        cv_net: action.cv_net,
        nullifier: action.nullifier,
        rk: action.rk,
        cmx: action.cmx,
        encrypted_note: action.encrypted_note,
        authorization: signature,
    }
}

/// What follows the actions of a bundle, and the rest.
pub open spec fn authorization_read(
    actions: Seq<WireAction<()>>,
    bytes: Seq<u8>,
    version: BundleVersion,
) -> Result<(WireView, Seq<u8>), ReadError> {
    match flags_read(bytes, version) {
        Err(e) => Err(e),
        Ok((flags, bytes)) => match balance_read(bytes) {
            Err(e) => Err(e),
            Ok((value_balance, bytes)) => match anchor_read(bytes) {
                Err(e) => Err(e),
                Ok((anchor, bytes)) => match proof_read(bytes) {
                    Err(e) => Err(e),
                    Ok((proof, bytes)) => match signatures_read(bytes, actions.len()) {
                        Err(e) => Err(e),
                        Ok((signatures, bytes)) => match array_read::<64>(bytes) {
                            Err(e) => Err(e),
                            Ok((binding_signature, bytes)) => if version.proof_size_enforced()
                                && proof.len() != proof_size(actions.len()) {
                                Err(ReadError::NonCanonicalProofSize)
                            } else {
                                Ok(
                                    (
                                        WireView {
                                            actions: Seq::new(
                                                actions.len(),
                                                |i: int| authorize(actions[i], signatures[i]),
                                            ),
                                            flags,
                                            value_balance,
                                            anchor,
                                            proof,
                                            binding_signature,
                                        },
                                        bytes,
                                    ),
                                )
                            },
                        },
                    },
                },
            },
        },
    }
}

/// A bundle at the start of bytes, and the rest: the number of its actions, and unless there are
/// none, the actions, the flags, the balance, the anchor, the proof and the signatures.
pub open spec fn bundle_read(bytes: Seq<u8>, version: BundleVersion) -> Result<
    (Option<WireView>, Seq<u8>),
    ReadError,
> {
    match compact_size(bytes) {
        Err(e) => Err(e),
        Ok((n, bytes)) => match actions_read(bytes, n) {
            Err(e) => Err(e),
            Ok((actions, bytes)) => if n == 0 {
                Ok((None, bytes))
            } else {
                match authorization_read(actions, bytes, version) {
                    Err(e) => Err(e),
                    Ok((bundle, bytes)) => Ok((Some(bundle), bytes)),
                }
            },
        },
    }
}

/// Reads a value commitment.
pub fn read_value_commitment(reader: &mut Reader) -> (r: Result<[u8; 32], ReadError>)
    ensures
        gives(r, final(reader).rest(), value_commitment_read(old(reader).rest())),
{
    match reader.read_array::<32>() {
        Ok(bytes) => if is_value_commitment(&bytes) {
            Ok(bytes)
        } else {
            Err(ReadError::InvalidValueCommitment)
        },
        Err(e) => Err(e),
    }
}

/// Reads a nullifier.
pub fn read_nullifier(reader: &mut Reader) -> (r: Result<[u8; 32], ReadError>)
    ensures
        gives(r, final(reader).rest(), nullifier_read(old(reader).rest())),
{
    match reader.read_array::<32>() {
        Ok(bytes) => if is_orchard_nullifier(&bytes) {
            Ok(bytes)
        } else {
            Err(ReadError::InvalidNullifier)
        },
        Err(e) => Err(e),
    }
}

/// Reads a verification key.
pub fn read_verification_key(reader: &mut Reader) -> (r: Result<[u8; 32], ReadError>)
    ensures
        gives(r, final(reader).rest(), verification_key_read(old(reader).rest())),
{
    match reader.read_array::<32>() {
        Ok(bytes) => if is_verification_key(&bytes) {
            Ok(bytes)
        } else {
            Err(ReadError::InvalidVerificationKey)
        },
        Err(e) => Err(e),
    }
}

/// Reads a note commitment.
pub fn read_cmx(reader: &mut Reader) -> (r: Result<[u8; 32], ReadError>)
    ensures
        gives(r, final(reader).rest(), cmx_read(old(reader).rest())),
{
    match reader.read_array::<32>() {
        Ok(bytes) => if is_orchard_commitment(&bytes) {
            Ok(bytes)
        } else {
            Err(ReadError::InvalidCmx)
        },
        Err(e) => Err(e),
    }
}

/// Reads an anchor.
pub fn read_anchor(reader: &mut Reader) -> (r: Result<[u8; 32], ReadError>)
    ensures
        gives(r, final(reader).rest(), anchor_read(old(reader).rest())),
{
    match reader.read_array::<32>() {
        Ok(bytes) => if is_orchard_anchor(&bytes) {
            Ok(bytes)
        } else {
            Err(ReadError::InvalidAnchor)
        },
        Err(e) => Err(e),
    }
}

/// Reads a signature.
pub fn read_signature(reader: &mut Reader) -> (r: Result<[u8; 64], ReadError>)
    ensures
        gives(r, final(reader).rest(), array_read::<64>(old(reader).rest())),
{
    reader.read_array::<64>()
}

/// Reads flags.
pub fn read_flags(reader: &mut Reader, bundle_version: BundleVersion) -> (r: Result<
    Flags,
    ReadError,
>)
    ensures
        gives(r, final(reader).rest(), flags_read(old(reader).rest(), bundle_version)),
{
    match reader.read_array::<1>() {
        Ok(bytes) => match Flags::from_byte(bytes[0], bundle_version) {
            Some(flags) => Ok(flags),
            None => Err(ReadError::InvalidFlags),
        },
        Err(e) => Err(e),
    }
}

/// Reads an encrypted note.
pub fn read_note_ciphertext(reader: &mut Reader) -> (r: Result<
    TransmittedNoteCiphertext,
    ReadError,
>)
    ensures
        gives(r, final(reader).rest(), note_ciphertext_read(old(reader).rest())),
{
    let epk_bytes = match reader.read_array::<32>() {
        Ok(bytes) => bytes,
        Err(e) => {
            return Err(e);
        },
    };
    let enc_ciphertext = match reader.read_array::<580>() {
        Ok(bytes) => bytes,
        Err(e) => {
            return Err(e);
        },
    };
    let out_ciphertext = match reader.read_array::<80>() {
        Ok(bytes) => bytes,
        Err(e) => {
            return Err(e);
        },
    };
    Ok(TransmittedNoteCiphertext { epk_bytes, enc_ciphertext, out_ciphertext })
}

/// Reads an action without its authorization.
pub fn read_action_without_auth(reader: &mut Reader) -> (r: Result<WireAction<()>, ReadError>)
    ensures
        gives(r, final(reader).rest(), action_read(old(reader).rest())),
{
    let cv_net = match read_value_commitment(reader) {
        Ok(cv_net) => cv_net,
        Err(e) => {
            return Err(e);
        },
    };
    let nullifier = match read_nullifier(reader) {
        Ok(nullifier) => nullifier,
        Err(e) => {
            return Err(e);
        },
    };
    let rk = match read_verification_key(reader) {
        Ok(rk) => rk,
        Err(e) => {
            return Err(e);
        },
    };
    let cmx = match read_cmx(reader) {
        Ok(cmx) => cmx,
        Err(e) => {
            return Err(e);
        },
    };
    let encrypted_note = match read_note_ciphertext(reader) {
        Ok(note) => note,
        Err(e) => {
            return Err(e);
        },
    };
    let action = WireAction { cv_net, nullifier, rk, cmx, encrypted_note, authorization: () };
    match action_from_parts(&action) {
        Some(_) => Ok(action),
        None => Err(ReadError::InvalidAction),
    }
}

/// Where the number of a bundle's actions is followed by too few of them, reading all of them
/// fails where reading fewer does.
proof fn lemma_actions_read_fails(bytes: Seq<u8>, k: nat, n: nat)
    requires
        k <= n,
        actions_read(bytes, k) is Err,
    ensures
        actions_read(bytes, n) == actions_read(bytes, k),
    decreases n,
{
    if k < n {
        lemma_actions_read_fails(bytes, k, (n - 1) as nat);
    }
}

/// Where there are too few signatures, reading all of them fails where reading fewer does.
proof fn lemma_signatures_read_fails(bytes: Seq<u8>, k: nat, n: nat)
    requires
        k <= n,
        signatures_read(bytes, k) is Err,
    ensures
        signatures_read(bytes, n) == signatures_read(bytes, k),
    decreases n,
{
    if k < n {
        lemma_signatures_read_fails(bytes, k, (n - 1) as nat);
    }
}

/// Reads so many actions without their authorization.
fn read_actions(reader: &mut Reader, n: usize) -> (r: Result<Vec<WireAction<()>>, ReadError>)
    ensures
        match actions_read(old(reader).rest(), n as nat) {
            Ok((actions, rest)) => r matches Ok(v) && v@ == actions && final(reader).rest() == rest,
            Err(e) => r matches Err(f) && f == e,
        },
{
    let ghost bytes = reader.rest();
    let mut actions: Vec<WireAction<()>> = Vec::new();
    let mut i: usize = 0;
    while i < n
        invariant
            i <= n,
            bytes == old(reader).rest(),
            actions_read(bytes, i as nat) == Ok::<(Seq<WireAction<()>>, Seq<u8>), ReadError>(
                (actions@, reader.rest()),
            ),
        decreases n - i,
    {
        match read_action_without_auth(reader) {
            Ok(action) => {
                actions.push(action);
            },
            Err(e) => {
                proof {
                    assert(actions_read(bytes, (i + 1) as nat) is Err);
                    lemma_actions_read_fails(bytes, (i + 1) as nat, n as nat);
                }
                return Err(e);
            },
        }
        i = i + 1;
    }
    Ok(actions)
}

/// Reads so many signatures.
fn read_signatures(reader: &mut Reader, n: usize) -> (r: Result<Vec<[u8; 64]>, ReadError>)
    ensures
        match signatures_read(old(reader).rest(), n as nat) {
            Ok((signatures, rest)) => r matches Ok(v) && v@ == signatures && final(reader).rest()
                == rest,
            Err(e) => r matches Err(f) && f == e,
        },
{
    let ghost bytes = reader.rest();
    let mut signatures: Vec<[u8; 64]> = Vec::new();
    let mut i: usize = 0;
    while i < n
        invariant
            i <= n,
            bytes == old(reader).rest(),
            signatures_read(bytes, i as nat) == Ok::<(Seq<[u8; 64]>, Seq<u8>), ReadError>(
                (signatures@, reader.rest()),
            ),
        decreases n - i,
    {
        match read_signature(reader) {
            Ok(signature) => {
                signatures.push(signature);
            },
            Err(e) => {
                proof {
                    assert(signatures_read(bytes, (i + 1) as nat) is Err);
                    lemma_signatures_read_fails(bytes, (i + 1) as nat, n as nat);
                }
                return Err(e);
            },
        }
        i = i + 1;
    }
    Ok(signatures)
}

/// Reads a proof, its size before it.
fn read_proof(reader: &mut Reader) -> (r: Result<Vec<u8>, ReadError>)
    ensures
        match proof_read(old(reader).rest()) {
            Ok((proof, rest)) => r matches Ok(v) && v@ == proof && final(reader).rest() == rest,
            Err(e) => r matches Err(f) && f == e,
        },
{
    match reader.read_compact_size() {
        Ok(n) => reader.read_bytes(n),
        Err(e) => Err(e),
    }
}

/// Puts together actions and their signatures.
fn authorize_actions(actions: &Vec<WireAction<()>>, signatures: &Vec<[u8; 64]>) -> (r: Vec<
    WireAction<[u8; 64]>,
>)
    requires
        actions@.len() == signatures@.len(),
    ensures
        r@ == Seq::new(actions@.len(), |i: int| authorize(actions@[i], signatures@[i])),
{
    let mut authorized: Vec<WireAction<[u8; 64]>> = Vec::new();
    let mut i: usize = 0;
    while i < actions.len()
        invariant
            i <= actions@.len(),
            actions@.len() == signatures@.len(),
            authorized@ == Seq::new(i as nat, |k: int| authorize(actions@[k], signatures@[k])),
        decreases actions@.len() - i,
    {
        authorized.push(
            WireAction {
                cv_net: actions[i].cv_net,
                nullifier: actions[i].nullifier,
                rk: actions[i].rk,
                cmx: actions[i].cmx,
                encrypted_note: actions[i].encrypted_note,
                authorization: signatures[i],
            },
        );
        i = i + 1;
        assert(authorized@ =~= Seq::new(
            i as nat,
            |k: int| authorize(actions@[k], signatures@[k]),
        ));
    }
    authorized
}

/// As many signatures are read as are asked for.
proof fn lemma_signatures_read_len(bytes: Seq<u8>, n: nat)
    requires
        signatures_read(bytes, n) is Ok,
    ensures
        signatures_read(bytes, n)->Ok_0.0.len() == n,
    decreases n,
{
    if n > 0 {
        lemma_signatures_read_len(bytes, (n - 1) as nat);
    }
}

/// As many actions are read as are asked for.
proof fn lemma_actions_read_len(bytes: Seq<u8>, n: nat)
    requires
        actions_read(bytes, n) is Ok,
    ensures
        actions_read(bytes, n)->Ok_0.0.len() == n,
    decreases n,
{
    if n > 0 {
        lemma_actions_read_len(bytes, (n - 1) as nat);
    }
}

/// Reads what follows the actions of a bundle.
fn read_authorization(
    reader: &mut Reader,
    actions: &Vec<WireAction<()>>,
    bundle_version: BundleVersion,
) -> (r: Result<WireBundle, ReadError>)
    requires
        actions@.len() <= MAX_COMPACT_SIZE,
    ensures
        match authorization_read(actions@, old(reader).rest(), bundle_version) {
            Ok((bundle, rest)) => r matches Ok(b) && b@ == bundle && final(reader).rest() == rest,
            Err(e) => r matches Err(f) && f == e,
        },
{
    let flags = match read_flags(reader, bundle_version) {
        Ok(flags) => flags,
        Err(e) => {
            return Err(e);
        },
    };
    let value_balance: i64 = match reader.read_balance() {
        Ok(value) => value,
        Err(e) => {
            return Err(e);
        },
    };
    let anchor = match read_anchor(reader) {
        Ok(anchor) => anchor,
        Err(e) => {
            return Err(e);
        },
    };
    let proof_bytes = match read_proof(reader) {
        Ok(bytes) => bytes,
        Err(e) => {
            return Err(e);
        },
    };
    let ghost before_signatures = reader.rest();
    let signatures = match read_signatures(reader, actions.len()) {
        Ok(signatures) => signatures,
        Err(e) => {
            return Err(e);
        },
    };
    proof {
        lemma_signatures_read_len(before_signatures, actions@.len());
    }
    let binding_signature = match read_signature(reader) {
        Ok(signature) => signature,
        Err(e) => {
            return Err(e);
        },
    };
    if bundle_version.enforces_canonical_proof_size() && proof_bytes.len() as u64
        != expected_proof_size(actions.len()) {
        return Err(ReadError::NonCanonicalProofSize);
    }
    Ok(
        WireBundle {
            actions: authorize_actions(actions, &signatures),
            flags,
            value_balance,
            anchor,
            authorization: Authorized { proof: proof_bytes, binding_signature },
        },
    )
}

/// What an optional bundle consists of.
pub open spec fn bundle_view(bundle: Option<WireBundle>) -> Option<WireView> {
    match bundle {
        Some(bundle) => Some(bundle@),
        None => None,
    }
}

/// Whether reading gave the bundle at the start of the bytes, and left the rest.
pub open spec fn gives_bundle(
    r: Result<Option<WireBundle>, ReadError>,
    rest: Seq<u8>,
    expected: Result<(Option<WireView>, Seq<u8>), ReadError>,
) -> bool {
    match expected {
        Ok((bundle, left)) => r matches Ok(b) && bundle_view(b) == bundle && rest == left,
        Err(e) => r matches Err(f) && f == e,
    }
}

/// Reads a bundle of the given version.
pub fn read_bundle(reader: &mut Reader, bundle_version: BundleVersion) -> (r: Result<
    Option<WireBundle>,
    ReadError,
>)
    ensures
        gives_bundle(r, final(reader).rest(), bundle_read(old(reader).rest(), bundle_version)),
{
    proof {
        if compact_size(reader.rest()) is Ok {
            lemma_compact_read_write(reader.rest());
        }
    }
    let n: usize = match reader.read_compact_size() {
        Ok(n) => n,
        Err(e) => {
            return Err(e);
        },
    };
    let ghost before_actions = reader.rest();
    let actions = match read_actions(reader, n) {
        Ok(actions) => actions,
        Err(e) => {
            return Err(e);
        },
    };
    proof {
        lemma_actions_read_len(before_actions, n as nat);
    }
    if n == 0 {
        return Ok(None);
    }
    match read_authorization(reader, &actions, bundle_version) {
        Ok(bundle) => Ok(Some(bundle)),
        Err(e) => Err(e),
    }
}

/// Reads the Orchard bundle of a version 5 transaction. How its flags are read, and whether a
/// proof must have the expected size, depends on the branch whose rules the transaction follows.
pub fn read_v5_bundle(reader: &mut Reader, consensus_branch_id: BranchId) -> (r: Result<
    Option<WireBundle>,
    ReadError,
>)
    ensures
        gives_bundle(
            r,
            final(reader).rest(),
            bundle_read(old(reader).rest(), bundle_version_under(consensus_branch_id)),
        ),
{
    read_bundle(reader, orchard_protocol_for_branch(consensus_branch_id))
}

/// Reads the Orchard bundle of a version 6 transaction.
pub fn read_v6_bundle(reader: &mut Reader) -> (r: Result<Option<WireBundle>, ReadError>)
    ensures
        gives_bundle(
            r,
            final(reader).rest(),
            bundle_read(old(reader).rest(), BundleVersion::OrchardV3),
        ),
{
    read_bundle(reader, BundleVersion::OrchardV3)
}

/// Reads the Ironwood bundle of a version 6 transaction. Its format is that of the Orchard bundle,
/// but for the flag that permits an action to send to another receiver than that of the note it
/// spends.
pub fn read_ironwood_v6_bundle(reader: &mut Reader) -> (r: Result<Option<WireBundle>, ReadError>)
    ensures
        gives_bundle(
            r,
            final(reader).rest(),
            bundle_read(old(reader).rest(), BundleVersion::IronwoodV3),
        ),
{
    read_bundle(reader, BundleVersion::IronwoodV3)
}

/// Why a bundle cannot be written.
#[derive(Clone, Copy, Debug, PartialEq, Eq, Structural)]
pub enum WriteError {
    /// There are too many actions, or the proof is too long.
    CompactSizeTooLarge,
    /// The flags cannot be expressed in the version of the bundle.
    UnrepresentableFlags,
}

/// The bytes of actions, without their authorization.
pub open spec fn actions_bytes(actions: Seq<WireAction<[u8; 64]>>) -> Seq<u8>
    decreases actions.len(),
{
    if actions.len() == 0 {
        Seq::empty()
    } else {
        actions_bytes(actions.drop_last()) + actions.last().bytes()
    }
}

/// The bytes of the signatures of actions.
pub open spec fn signatures_bytes(actions: Seq<WireAction<[u8; 64]>>) -> Seq<u8>
    decreases actions.len(),
{
    if actions.len() == 0 {
        Seq::empty()
    } else {
        signatures_bytes(actions.drop_last()) + actions.last().authorization@
    }
}

impl WireView {
    /// Whether the bundle is one of the given version: it has actions, all of them are actions,
    /// its balance and its anchor are such, and its proof has the size that it must have.
    pub open spec fn valid(self, version: BundleVersion) -> bool {
        &&& self.actions.len() > 0
        &&& forall|i: int| 0 <= i < self.actions.len() ==> (#[trigger] self.actions[i]).valid()
        &&& balance_valid(self.value_balance as int)
        &&& pallas_base_canonical(self.anchor@)
        &&& version.proof_size_enforced() ==> self.proof.len() == proof_size(self.actions.len())
    }

    /// What follows the actions.
    pub open spec fn authorization_bytes(self, version: BundleVersion) -> Seq<u8> {
        seq![self.flags.byte(version)] + (le_bytes(unsigned(self.value_balance as int), 8) + (
        self.anchor@ + (compact_bytes(self.proof.len()) + (self.proof + (signatures_bytes(
            self.actions,
        ) + self.binding_signature@)))))
    }

    /// The bytes of the bundle.
    pub open spec fn bytes(self, version: BundleVersion) -> Seq<u8> {
        compact_bytes(self.actions.len()) + (actions_bytes(self.actions)
            + self.authorization_bytes(version))
    }

    /// Why the bundle cannot be written.
    pub open spec fn write_error(self, version: BundleVersion) -> Option<WriteError> {
        if self.actions.len() > MAX_COMPACT_SIZE {
            Some(WriteError::CompactSizeTooLarge)
        } else if !self.flags.representable(version) {
            Some(WriteError::UnrepresentableFlags)
        } else if self.proof.len() > MAX_COMPACT_SIZE {
            Some(WriteError::CompactSizeTooLarge)
        } else {
            None
        }
    }
}

/// The bytes of a bundle that may be missing.
pub open spec fn bundle_bytes(bundle: Option<WireView>, version: BundleVersion) -> Seq<u8> {
    match bundle {
        Some(bundle) => bundle.bytes(version),
        None => compact_bytes(0),
    }
}

/// Why a bundle that may be missing cannot be written.
pub open spec fn bundle_write_error(bundle: Option<WireView>, version: BundleVersion) -> Option<
    WriteError,
> {
    match bundle {
        Some(bundle) => bundle.write_error(version),
        None => None,
    }
}

/// Writes a value commitment.
pub fn write_value_commitment(writer: &mut Vec<u8>, cv: &[u8; 32])
    ensures
        final(writer)@ == old(writer)@ + cv@,
{
    write_all(writer, cv.as_slice());
}

/// Writes a nullifier.
pub fn write_nullifier(writer: &mut Vec<u8>, nf: &[u8; 32])
    ensures
        final(writer)@ == old(writer)@ + nf@,
{
    write_all(writer, nf.as_slice());
}

/// Writes a verification key.
pub fn write_verification_key(writer: &mut Vec<u8>, rk: &[u8; 32])
    ensures
        final(writer)@ == old(writer)@ + rk@,
{
    write_all(writer, rk.as_slice());
}

/// Writes a note commitment.
pub fn write_cmx(writer: &mut Vec<u8>, cmx: &[u8; 32])
    ensures
        final(writer)@ == old(writer)@ + cmx@,
{
    write_all(writer, cmx.as_slice());
}

/// Writes an encrypted note.
pub fn write_note_ciphertext(writer: &mut Vec<u8>, nc: &TransmittedNoteCiphertext)
    ensures
        final(writer)@ == old(writer)@ + nc.epk_bytes@ + nc.enc_ciphertext@ + nc.out_ciphertext@,
{
    write_all(writer, nc.epk_bytes.as_slice());
    write_all(writer, nc.enc_ciphertext.as_slice());
    write_all(writer, nc.out_ciphertext.as_slice());
}

/// Writes an action without its authorization.
pub fn write_action_without_auth<A>(writer: &mut Vec<u8>, act: &WireAction<A>)
    ensures
        final(writer)@ == old(writer)@ + act.bytes(),
{
    write_value_commitment(writer, &act.cv_net);
    write_nullifier(writer, &act.nullifier);
    write_verification_key(writer, &act.rk);
    write_cmx(writer, &act.cmx);
    write_note_ciphertext(writer, &act.encrypted_note);
    assert(writer@ =~= old(writer)@ + act.bytes());
}

/// Writes actions without their authorization.
fn write_actions(writer: &mut Vec<u8>, actions: &Vec<WireAction<[u8; 64]>>)
    ensures
        final(writer)@ == old(writer)@ + actions_bytes(actions@),
{
    let ghost before = writer@;
    let mut i: usize = 0;
    assert(writer@ =~= before + actions_bytes(actions@.take(0)));
    while i < actions.len()
        invariant
            i <= actions@.len(),
            writer@ == before + actions_bytes(actions@.take(i as int)),
        decreases actions@.len() - i,
    {
        write_action_without_auth(writer, &actions[i]);
        proof {
            let next = actions@.take(i + 1);
            assert(next.drop_last() =~= actions@.take(i as int));
            assert(next.last() == actions@[i as int]);
            assert(writer@ =~= before + actions_bytes(next));
        }
        i = i + 1;
    }
    assert(actions@.take(i as int) =~= actions@);
}

/// Writes the signatures of actions.
fn write_signatures(writer: &mut Vec<u8>, actions: &Vec<WireAction<[u8; 64]>>)
    ensures
        final(writer)@ == old(writer)@ + signatures_bytes(actions@),
{
    let ghost before = writer@;
    let mut i: usize = 0;
    assert(writer@ =~= before + signatures_bytes(actions@.take(0)));
    while i < actions.len()
        invariant
            i <= actions@.len(),
            writer@ == before + signatures_bytes(actions@.take(i as int)),
        decreases actions@.len() - i,
    {
        write_all(writer, actions[i].authorization.as_slice());
        proof {
            let next = actions@.take(i + 1);
            assert(next.drop_last() =~= actions@.take(i as int));
            assert(next.last() == actions@[i as int]);
            assert(writer@ =~= before + signatures_bytes(next));
        }
        i = i + 1;
    }
    assert(actions@.take(i as int) =~= actions@);
}

/// Writes a bundle of the given version. Where it cannot be written, a part of it may have been.
pub fn write_bundle(bundle: Option<&WireBundle>, writer: &mut Vec<u8>, bundle_version: BundleVersion) -> (r:
    Result<(), WriteError>)
    requires
        bundle matches Some(b) ==> b.actions@.len() > 0 && balance_valid(b.value_balance as int),
    ensures
        written(r, old(writer)@, final(writer)@, optional_view(bundle), bundle_version),
{
    let ghost before = writer@;
    match bundle {
        Some(bundle) => {
            let ghost count = compact_bytes(bundle.actions@.len());
            let ghost actions = actions_bytes(bundle.actions@);
            if !write_compact_size(writer, bundle.actions.len()) {
                assert(writer@.take(before.len() as int) =~= before);
                return Err(WriteError::CompactSizeTooLarge);
            }
            write_actions(writer, &bundle.actions);
            let ghost counted = before + count + actions;
            let flags: u8 = match bundle.flags.to_byte(bundle_version) {
                Some(flags) => flags,
                None => {
                    assert(counted.take(before.len() as int) =~= before);
                    return Err(WriteError::UnrepresentableFlags);
                },
            };
            writer.push(flags);
            write_balance(writer, bundle.value_balance);
            write_all(writer, bundle.anchor.as_slice());
            let ghost number = le_bytes(unsigned(bundle.value_balance as int), 8);
            let ghost anchored = counted.push(flags) + number + bundle.anchor@;
            if !write_compact_size(writer, bundle.authorization.proof.len()) {
                assert(anchored.take(before.len() as int) =~= before);
                return Err(WriteError::CompactSizeTooLarge);
            }
            let ghost size = compact_bytes(bundle.authorization.proof@.len());
            write_all(writer, bundle.authorization.proof.as_slice());
            write_signatures(writer, &bundle.actions);
            write_all(writer, bundle.authorization.binding_signature.as_slice());
            let ghost signatures = signatures_bytes(bundle.actions@);
            proof {
                lemma_same_bytes(
                    before,
                    count,
                    actions,
                    flags,
                    number,
                    bundle.anchor@,
                    size,
                    bundle.authorization.proof@,
                    signatures,
                    bundle.authorization.binding_signature@,
                );
            }
            Ok(())
        },
        None => {
            let fits = write_compact_size(writer, 0);
            assert(fits);
            Ok(())
        },
    }
}

/// In what order bytes are put together makes no difference.
proof fn lemma_same_bytes(
    before: Seq<u8>,
    count: Seq<u8>,
    actions: Seq<u8>,
    flags: u8,
    number: Seq<u8>,
    anchor: Seq<u8>,
    size: Seq<u8>,
    proved: Seq<u8>,
    signatures: Seq<u8>,
    binding: Seq<u8>,
)
    ensures
        (before + count + actions).push(flags) + number + anchor + size + proved + signatures
            + binding == before + (count + (actions + (seq![flags] + (number + (anchor + (size + (
        proved + (signatures + binding)))))))),
{
    assert((before + count + actions).push(flags) + number + anchor + size + proved + signatures
        + binding =~= before + (count + (actions + (seq![flags] + (number + (anchor + (size + (proved
        + (signatures + binding)))))))));
}

/// What an optional bundle consists of.
pub open spec fn optional_view(bundle: Option<&WireBundle>) -> Option<WireView> {
    match bundle {
        Some(bundle) => Some(bundle@),
        None => None,
    }
}

/// Whether a bundle has been written behind the bytes that were there, or why it has not.
pub open spec fn written(
    r: Result<(), WriteError>,
    before: Seq<u8>,
    after: Seq<u8>,
    bundle: Option<WireView>,
    version: BundleVersion,
) -> bool {
    match bundle_write_error(bundle, version) {
        Some(e) => r == Err::<(), WriteError>(e) && before.len() <= after.len() && after.take(
            before.len() as int,
        ) == before,
        None => r is Ok && after == before + bundle_bytes(bundle, version),
    }
}

/// Writes the Orchard bundle of a version 5 transaction.
pub fn write_v5_bundle(
    bundle: Option<&WireBundle>,
    writer: &mut Vec<u8>,
    consensus_branch_id: BranchId,
) -> (r: Result<(), WriteError>)
    requires
        bundle matches Some(b) ==> b.actions@.len() > 0 && balance_valid(b.value_balance as int),
    ensures
        written(
            r,
            old(writer)@,
            final(writer)@,
            optional_view(bundle),
            bundle_version_under(consensus_branch_id),
        ),
{
    write_bundle(bundle, writer, orchard_protocol_for_branch(consensus_branch_id))
}

/// Writes the Orchard bundle of a version 6 transaction.
pub fn write_v6_bundle(bundle: Option<&WireBundle>, writer: &mut Vec<u8>) -> (r: Result<
    (),
    WriteError,
>)
    requires
        bundle matches Some(b) ==> b.actions@.len() > 0 && balance_valid(b.value_balance as int),
    ensures
        written(
            r,
            old(writer)@,
            final(writer)@,
            optional_view(bundle),
            BundleVersion::OrchardV3,
        ),
{
    write_bundle(bundle, writer, BundleVersion::OrchardV3)
}

/// Writes the Ironwood bundle of a version 6 transaction.
pub fn write_ironwood_v6_bundle(bundle: Option<&WireBundle>, writer: &mut Vec<u8>) -> (r: Result<
    (),
    WriteError,
>)
    requires
        bundle matches Some(b) ==> b.actions@.len() > 0 && balance_valid(b.value_balance as int),
    ensures
        written(
            r,
            old(writer)@,
            final(writer)@,
            optional_view(bundle),
            BundleVersion::IronwoodV3,
        ),
{
    write_bundle(bundle, writer, BundleVersion::IronwoodV3)
}

impl<A> WireAction<A> {
    /// Whether the action is one.
    pub fn is_valid(&self) -> (r: bool)
        ensures
            r == self.valid(),
    {
        if is_value_commitment(&self.cv_net) && is_orchard_nullifier(&self.nullifier)
            && is_verification_key(&self.rk) && is_orchard_commitment(&self.cmx) {
            action_from_parts(self).is_some()
        } else {
            false
        }
    }
}

impl WireBundle {
    /// Whether the bundle is one of the given version.
    pub fn is_valid(&self, version: BundleVersion) -> (r: bool)
        ensures
            r == self@.valid(version),
    {
        if self.actions.len() == 0 {
            return false;
        }
        let mut i: usize = 0;
        while i < self.actions.len()
            invariant
                i <= self.actions@.len(),
                forall|k: int| 0 <= k < i ==> (#[trigger] self@.actions[k]).valid(),
            decreases self.actions@.len() - i,
        {
            if !self.actions[i].is_valid() {
                assert(!self@.actions[i as int].valid());
                return false;
            }
            i = i + 1;
        }
        if self.value_balance < -(MAX_MONEY as i64) || self.value_balance > MAX_MONEY as i64 {
            return false;
        }
        if !is_orchard_anchor(&self.anchor) {
            return false;
        }
        if version.enforces_canonical_proof_size() {
            self.authorization.proof.len() as u128 == 2720 + 2272 * (self.actions.len() as u128)
        } else {
            true
        }
    }
}

} // verus!
