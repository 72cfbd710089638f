//! The shielded pools, as far as trial decryption is concerned.

use vstd::prelude::*;

use orchard::keys::FullViewingKey as OrchardFullViewingKey;
use orchard::keys::Scope as OutsideScope;
use orchard::keys::Scope::External as ExternalScope;
use orchard::keys::Scope::Internal as InternalScope;
use orchard::note::ExtractedNoteCommitment as OrchardCommitment;
use orchard::note::Nullifier as OrchardNullifier;
use orchard::note::RandomSeed;
use orchard::note::Rho;
use orchard::note_encryption::CompactAction as OrchardCompactAction;
use orchard::note_encryption::IronwoodDomain;
use orchard::note_encryption::OrchardDomain;
use orchard::value::NoteValue as OrchardNoteValue;
use orchard::Address as OrchardAddress;
use orchard::Note as OutsideOrchardNote;
use orchard::NoteVersion as OutsideNoteVersion;
use sapling_crypto::keys::PreparedIncomingViewingKey;
use sapling_crypto::note::ExtractedNoteCommitment as SaplingCommitment;
use sapling_crypto::note_encryption::CompactOutputDescription;
use sapling_crypto::note_encryption::SaplingDomain;
use sapling_crypto::note_encryption::Zip212Enforcement::GracePeriod as InGracePeriod;
use sapling_crypto::note_encryption::Zip212Enforcement::Off as NotEnforced;
use sapling_crypto::note_encryption::Zip212Enforcement::On as Enforced;
use sapling_crypto::value::NoteValue as SaplingNoteValue;
use sapling_crypto::value::ValueCommitTrapdoor;
use sapling_crypto::zip32::DiversifiableFullViewingKey;
use sapling_crypto::Note as OutsideSaplingNote;
use sapling_crypto::PaymentAddress;
use sapling_crypto::Rseed;
use zcash_note_encryption::try_compact_note_decryption;
use zcash_note_encryption::EphemeralKeyBytes;

use crate::consensus::Zip212Enforcement;
use crate::field::jubjub_base_canonical;
use crate::field::jubjub_scalar_canonical;
use crate::field::pallas_base_canonical;
use crate::pool::NoteVersion;
use crate::scanning::pools::SaplingNoteForm::AfterZip212;
use crate::scanning::pools::SaplingNoteForm::BeforeZip212;

verus! {

/// A number that identifies an account of a wallet.
pub type AccountId = u32;

/// Which of the two keys of an account received a note.
#[derive(Clone, Copy, Debug, PartialEq, Eq, Structural)]
pub enum Scope {
    /// The key for payments from outside.
    External,
    /// The key for change and other payments of the wallet to itself.
    Internal,
}

/// A Sapling key of an account, for one of its scopes.
#[derive(Clone, Copy, Debug, PartialEq, Eq)]
pub struct SaplingKey {
    pub account: AccountId,
    pub scope: Scope,
    /// The encoding of the diversifiable full viewing key.
    pub dfvk: [u8; 128],
}

/// An Orchard key of an account, for one of its scopes. It is used for the Ironwood pool as well.
#[derive(Clone, Copy, Debug, PartialEq, Eq)]
pub struct OrchardKey {
    pub account: AccountId,
    pub scope: Scope,
    /// The encoding of the full viewing key.
    pub fvk: [u8; 96],
}

/// The forms of Sapling notes.
#[derive(Clone, Copy, Debug, PartialEq, Eq, Structural)]
pub enum SaplingNoteForm {
    /// The form that was in use before ZIP 212, where the seed is the commitment trapdoor itself.
    BeforeZip212,
    /// The form since ZIP 212, where the commitment trapdoor is derived from the seed.
    AfterZip212,
}

/// A Sapling note.
#[derive(Clone, Copy, Debug, PartialEq, Eq)]
pub struct SaplingNote {
    pub recipient: [u8; 43],
    pub value: u64,
    pub form: SaplingNoteForm,
    pub rseed: [u8; 32],
}

/// An Orchard or Ironwood note.
#[derive(Clone, Copy, Debug, PartialEq, Eq)]
pub struct OrchardNote {
    pub recipient: [u8; 43],
    pub value: u64,
    pub rho: [u8; 32],
    pub rseed: [u8; 32],
    pub version: NoteVersion,
}

/// A Sapling output in its compact form, with the rules that hold for its plaintext.
#[derive(Clone, Copy, Debug, PartialEq, Eq)]
pub struct SaplingOutput {
    pub cmu: [u8; 32],
    pub ephemeral_key: [u8; 32],
    pub ciphertext: [u8; 52],
    pub zip212: Zip212Enforcement,
}

/// An action in its compact form.
#[derive(Clone, Copy, Debug, PartialEq, Eq)]
pub struct CompactAction {
    pub nullifier: [u8; 32],
    pub cmx: [u8; 32],
    pub ephemeral_key: [u8; 32],
    pub ciphertext: [u8; 52],
}

/// The parts of a Sapling output.
pub struct SaplingOutputView {
    pub cmu: Seq<u8>,
    pub ephemeral_key: Seq<u8>,
    pub ciphertext: Seq<u8>,
    pub zip212: Zip212Enforcement,
}

/// The parts of an action.
pub struct CompactActionView {
    pub nullifier: Seq<u8>,
    pub cmx: Seq<u8>,
    pub ephemeral_key: Seq<u8>,
    pub ciphertext: Seq<u8>,
}

impl View for SaplingOutput {
    type V = SaplingOutputView;

    open spec fn view(&self) -> SaplingOutputView {
        SaplingOutputView {
            cmu: self.cmu@,
            ephemeral_key: self.ephemeral_key@,
            ciphertext: self.ciphertext@,
            zip212: self.zip212,
        }
    }
}

impl View for CompactAction {
    type V = CompactActionView;

    open spec fn view(&self) -> CompactActionView {
        CompactActionView {
            nullifier: self.nullifier@,
            cmx: self.cmx@,
            ephemeral_key: self.ephemeral_key@,
            ciphertext: self.ciphertext@,
        }
    }
}

/// Whether bytes encode a Sapling diversifiable full viewing key, as
/// `sapling_crypto::zip32::DiversifiableFullViewingKey::from_bytes` reads it.
pub uninterp spec fn sapling_key_encoded(dfvk: Seq<u8>) -> bool;

/// Whether bytes encode a point of Jubjub.
pub uninterp spec fn jubjub_point_encoded(bytes: Seq<u8>) -> bool;

/// Whether bytes encode an Orchard full viewing key, as
/// `orchard::keys::FullViewingKey::from_bytes` reads it.
pub uninterp spec fn orchard_key_encoded(fvk: Seq<u8>) -> bool;

/// The note that the key of a scope finds in a compact Sapling output, if any.
pub uninterp spec fn sapling_decryption(
    dfvk: Seq<u8>,
    internal: bool,
    zip212: Zip212Enforcement,
    ephemeral_key: Seq<u8>,
    cmu: Seq<u8>,
    ciphertext: Seq<u8>,
) -> Option<SaplingNote>;

/// The note that the key of a scope finds in a compact action of the Orchard pool, if any.
pub uninterp spec fn orchard_decryption(
    fvk: Seq<u8>,
    internal: bool,
    nullifier: Seq<u8>,
    cmx: Seq<u8>,
    ephemeral_key: Seq<u8>,
    ciphertext: Seq<u8>,
) -> Option<OrchardNote>;

/// The note that the key of a scope finds in a compact action of the Ironwood pool, if any.
pub uninterp spec fn ironwood_decryption(
    fvk: Seq<u8>,
    internal: bool,
    nullifier: Seq<u8>,
    cmx: Seq<u8>,
    ephemeral_key: Seq<u8>,
    ciphertext: Seq<u8>,
) -> Option<OrchardNote>;

/// The nullifier of a Sapling note at a position of the commitment tree, if there is such a note.
pub uninterp spec fn sapling_nullifier(
    dfvk: Seq<u8>,
    internal: bool,
    note: SaplingNote,
    position: u64,
) -> Option<Seq<u8>>;

/// The nullifier of an Orchard or Ironwood note, if there is such a note.
pub uninterp spec fn orchard_nullifier(fvk: Seq<u8>, note: OrchardNote) -> Option<Seq<u8>>;

/// Whether bytes encode a point of Jubjub.
///
/// This is whether `jubjub::AffinePoint::from_bytes` returns one.
#[verifier::external_body]
pub(crate) fn is_jubjub_point(bytes: &[u8; 32]) -> (r: bool)
    ensures
        r == jubjub_point_encoded(bytes@),
{
    jubjub::AffinePoint::from_bytes(*bytes).is_some().into()
}

/// The first 32 of 128 bytes.
fn front(bytes: &[u8; 128]) -> (r: [u8; 32])
    ensures
        r@ == bytes@.take(32),
{
    let mut out: [u8; 32] = [0; 32];
    let mut i: usize = 0;
    while i < 32
        invariant
            i <= 32,
            forall|k: int| 0 <= k < i ==> out@[k] == bytes@[k],
        decreases 32 - i,
    {
        out[i] = bytes[i];
        i = i + 1;
    }
    assert(out@ =~= bytes@.take(32));
    out
}

/// Whether bytes, of which the first 32 encode a point of Jubjub, encode a Sapling diversifiable
/// full viewing key.
///
/// This is whether `sapling_crypto::zip32::DiversifiableFullViewingKey::from_bytes` returns a key.
/// It does not return at all where the first 32 bytes, which hold the spend validating key, encode
/// no point.
#[verifier::external_body]
pub(crate) fn is_sapling_key(dfvk: &[u8; 128]) -> (r: bool)
    requires
        jubjub_point_encoded(dfvk@.take(32)),
    ensures
        r == sapling_key_encoded(dfvk@),
{
    DiversifiableFullViewingKey::from_bytes(dfvk).is_some()
}

/// Whether bytes encode an Orchard full viewing key.
///
/// This is whether `orchard::keys::FullViewingKey::from_bytes` returns a key.
#[verifier::external_body]
pub(crate) fn is_orchard_key(fvk: &[u8; 96]) -> (r: bool)
    ensures
        r == orchard_key_encoded(fvk@),
{
    OrchardFullViewingKey::from_bytes(fvk).is_some()
}

/// Whether bytes encode a Sapling note commitment.
///
/// This is whether `sapling_crypto::note::ExtractedNoteCommitment::from_bytes` returns one, which
/// it does for the canonical encodings of elements of the base field of Jubjub.
#[verifier::external_body]
pub(crate) fn is_sapling_commitment(cmu: &[u8; 32]) -> (r: bool)
    ensures
        r == jubjub_base_canonical(cmu@),
{
    SaplingCommitment::from_bytes(cmu).is_some().into()
}

/// Whether bytes encode an Orchard nullifier.
///
/// This is whether `orchard::note::Nullifier::from_bytes` returns one, which it does for the
/// canonical encodings of elements of the base field of Pallas.
#[verifier::external_body]
pub(crate) fn is_orchard_nullifier(nullifier: &[u8; 32]) -> (r: bool)
    ensures
        r == pallas_base_canonical(nullifier@),
{
    OrchardNullifier::from_bytes(nullifier).is_some().into()
}

/// Whether bytes encode an Orchard note commitment.
///
/// This is whether `orchard::note::ExtractedNoteCommitment::from_bytes` returns one, which it does
/// for the canonical encodings of elements of the base field of Pallas.
#[verifier::external_body]
pub(crate) fn is_orchard_commitment(cmx: &[u8; 32]) -> (r: bool)
    ensures
        r == pallas_base_canonical(cmx@),
{
    OrchardCommitment::from_bytes(cmx).is_some().into()
}

/// Whether bytes encode a Sapling payment address, as `sapling_crypto::PaymentAddress::from_bytes`
/// reads it.
pub uninterp spec fn sapling_address_encoded(recipient: Seq<u8>) -> bool;

/// Whether parts make an Orchard note: the bytes encode an address, a rho and a seed that goes with
/// it, and `orchard::Note::from_parts` returns a note of them. The note is of version 3 or else of
/// version 2.
pub uninterp spec fn orchard_note_encoded(
    recipient: Seq<u8>,
    value: u64,
    rho: Seq<u8>,
    rseed: Seq<u8>,
    version3: bool,
) -> bool;

/// Whether bytes encode a Sapling payment address.
///
/// This is whether `sapling_crypto::PaymentAddress::from_bytes` returns an address.
#[verifier::external_body]
pub(crate) fn is_sapling_address(recipient: &[u8; 43]) -> (r: bool)
    ensures
        r == sapling_address_encoded(recipient@),
{
    PaymentAddress::from_bytes(recipient).is_some()
}

/// Whether bytes encode a scalar of Jubjub.
///
/// This is whether `sapling_crypto::value::ValueCommitTrapdoor::from_bytes` returns a trapdoor,
/// which it does for the canonical encodings of scalars of Jubjub.
#[verifier::external_body]
pub(crate) fn is_jubjub_scalar(bytes: &[u8; 32]) -> (r: bool)
    ensures
        r == jubjub_scalar_canonical(bytes@),
{
    ValueCommitTrapdoor::from_bytes(*bytes).is_some().into()
}

/// Whether parts make an Orchard note.
///
/// This is whether `orchard::Note::from_parts` returns a note, when
/// `orchard::Address::from_raw_address_bytes`, `orchard::note::Rho::from_bytes` and
/// `orchard::note::RandomSeed::from_bytes` have returned its parts. It is a function of what is
/// passed, and has the name [`orchard_note_encoded`].
#[verifier::external_body]
pub(crate) fn is_orchard_note(note: &OrchardNote) -> (r: bool)
    ensures
        r == orchard_note_encoded(
            note.recipient@,
            note.value,
            note.rho@,
            note.rseed@,
            note.version is V3,
        ),
{
    let version = match note.version { NoteVersion::V2 => OutsideNoteVersion::V2, NoteVersion::V3 => OutsideNoteVersion::V3 };
    let value = OrchardNoteValue::from_raw(note.value);
    let address: Option<OrchardAddress> = OrchardAddress::from_raw_address_bytes(&note.recipient).into();
    let rho: Option<Rho> = Rho::from_bytes(&note.rho).into();
    let seed: Option<RandomSeed> = rho.and_then(|rho| RandomSeed::from_bytes(note.rseed, &rho).into());
    address.zip(rho).zip(seed).is_some_and(
        |((address, rho), seed)| OutsideOrchardNote::from_parts(address, value, rho, seed, version).is_some().into())
}

/// The note that a key finds in a compact Sapling output.
///
/// This is `zcash_note_encryption::try_compact_note_decryption` in the domain
/// `sapling_crypto::note_encryption::SaplingDomain`, with the incoming viewing key of the given
/// full viewing key and scope. What it finds is a function of what is passed, and has the name
/// [`sapling_decryption`].
#[verifier::external_body]
fn sapling_decrypt(key: &SaplingKey, output: &SaplingOutput) -> (r: Option<SaplingNote>)
    requires
        sapling_key_encoded(key.dfvk@),
        jubjub_base_canonical(output.cmu@),
    ensures
        r == sapling_decryption(
            key.dfvk@,
            key.scope is Internal,
            output.zip212,
            output.ephemeral_key@,
            output.cmu@,
            output.ciphertext@,
        ),
{
    let (note, to) = try_compact_note_decryption(
        &SaplingDomain::new(match output.zip212 {
            Zip212Enforcement::Off => NotEnforced, Zip212Enforcement::GracePeriod => InGracePeriod, Zip212Enforcement::On => Enforced }),
        &PreparedIncomingViewingKey::new(&DiversifiableFullViewingKey::from_bytes(&key.dfvk)?.to_ivk(
            match key.scope { Scope::External => ExternalScope, Scope::Internal => InternalScope })),
        &CompactOutputDescription { ephemeral_key: EphemeralKeyBytes(output.ephemeral_key), cmu: SaplingCommitment::from_bytes(&output.cmu).unwrap(), enc_ciphertext: output.ciphertext },
    )?;
    let (form, rseed) = match note.rseed() { Rseed::BeforeZip212(rcm) => (BeforeZip212, rcm.to_bytes()), Rseed::AfterZip212(seed) => (AfterZip212, *seed) };
    Some(SaplingNote { recipient: to.to_bytes(), value: note.value().inner(), form, rseed })
}

/// Which of the keys is the first to find a note in a compact Sapling output, and the note.
fn sapling_first_decryption(keys: &Vec<SaplingKey>, output: &SaplingOutput) -> (r: Option<
    (SaplingNote, usize),
>)
    requires
        forall|k: int| 0 <= k < keys@.len() ==> sapling_key_encoded((#[trigger] keys@[k]).dfvk@),
        jubjub_base_canonical(output.cmu@),
    ensures
        r matches Some((note, k)) ==> k < keys@.len() && sapling_decryption(
                keys@[k as int].dfvk@,
                keys@[k as int].scope is Internal,
                output.zip212,
                output.ephemeral_key@,
                output.cmu@,
                output.ciphertext@,
            ) == Some(note),
        forall|j: int|
            #![trigger keys@[j]]
            0 <= j < (match r {
                Some((_, k)) => k as int,
                None => keys@.len() as int,
            }) ==> sapling_decryption(
                keys@[j].dfvk@,
                keys@[j].scope is Internal,
                output.zip212,
                output.ephemeral_key@,
                output.cmu@,
                output.ciphertext@,
            ) is None,
{
    let mut i: usize = 0;
    while i < keys.len()
        invariant
            i <= keys@.len(),
            forall|k: int|
                0 <= k < keys@.len() ==> sapling_key_encoded((#[trigger] keys@[k]).dfvk@),
            jubjub_base_canonical(output.cmu@),
            forall|j: int|
                #![trigger keys@[j]]
                0 <= j < i ==> sapling_decryption(
                    keys@[j].dfvk@,
                    keys@[j].scope is Internal,
                    output.zip212,
                    output.ephemeral_key@,
                    output.cmu@,
                    output.ciphertext@,
                ) is None,
        decreases keys@.len() - i,
    {
        match sapling_decrypt(&keys[i], output) {
            Some(note) => {
                return Some((note, i));
            },
            None => {},
        }
        i = i + 1;
    }
    None
}

/// The note that a key finds in a compact action of the Orchard pool.
///
/// This is `zcash_note_encryption::try_compact_note_decryption` in the domain
/// `orchard::note_encryption::OrchardDomain` of that action, with the incoming viewing key of the given
/// full viewing key and scope. What it finds is a function of what is passed, and has the name
/// [`orchard_decryption`].
#[verifier::external_body]
fn orchard_decrypt(key: &OrchardKey, action: &CompactAction) -> (r: Option<OrchardNote>)
    requires
        orchard_key_encoded(key.fvk@),
        pallas_base_canonical(action.nullifier@),
        pallas_base_canonical(action.cmx@),
    ensures
        r == orchard_decryption(
            key.fvk@,
            key.scope is Internal,
            action.nullifier@,
            action.cmx@,
            action.ephemeral_key@,
            action.ciphertext@,
        ),
{
    let compact = OrchardCompactAction::from_parts(
        OrchardNullifier::from_bytes(&action.nullifier).unwrap(), OrchardCommitment::from_bytes(&action.cmx).unwrap(),
        EphemeralKeyBytes(action.ephemeral_key), action.ciphertext);
    let (note, to) = try_compact_note_decryption(
        &OrchardDomain::for_compact_action(&compact),
        &OrchardFullViewingKey::from_bytes(&key.fvk)?.to_ivk(
            match key.scope { Scope::External => ExternalScope, Scope::Internal => InternalScope }).prepare(),
        &compact,
    )?;
    let version = match note.version() { OutsideNoteVersion::V2 => NoteVersion::V2, OutsideNoteVersion::V3 => NoteVersion::V3 };
    Some(OrchardNote { recipient: to.to_raw_address_bytes(), value: note.value().inner(), rho: note.rho().to_bytes(), rseed: *note.rseed().as_bytes(), version })
}

/// Which of the keys is the first to find a note in a compact action of the Orchard pool, and the
/// note.
fn orchard_first_decryption(keys: &Vec<OrchardKey>, action: &CompactAction) -> (r: Option<
    (OrchardNote, usize),
>)
    requires
        forall|k: int| 0 <= k < keys@.len() ==> orchard_key_encoded((#[trigger] keys@[k]).fvk@),
        pallas_base_canonical(action.nullifier@),
        pallas_base_canonical(action.cmx@),
    ensures
        r matches Some((note, k)) ==> k < keys@.len() && orchard_decryption(
                keys@[k as int].fvk@,
                keys@[k as int].scope is Internal,
                action.nullifier@,
                action.cmx@,
                action.ephemeral_key@,
                action.ciphertext@,
            ) == Some(note),
        forall|j: int|
            #![trigger keys@[j]]
            0 <= j < (match r {
                Some((_, k)) => k as int,
                None => keys@.len() as int,
            }) ==> orchard_decryption(
                keys@[j].fvk@,
                keys@[j].scope is Internal,
                action.nullifier@,
                action.cmx@,
                action.ephemeral_key@,
                action.ciphertext@,
            ) is None,
{
    let mut i: usize = 0;
    while i < keys.len()
        invariant
            i <= keys@.len(),
            forall|k: int|
                0 <= k < keys@.len() ==> orchard_key_encoded((#[trigger] keys@[k]).fvk@),
            pallas_base_canonical(action.nullifier@),
            pallas_base_canonical(action.cmx@),
            forall|j: int|
                #![trigger keys@[j]]
                0 <= j < i ==> orchard_decryption(
                    keys@[j].fvk@,
                    keys@[j].scope is Internal,
                    action.nullifier@,
                    action.cmx@,
                    action.ephemeral_key@,
                    action.ciphertext@,
                ) is None,
        decreases keys@.len() - i,
    {
        match orchard_decrypt(&keys[i], action) {
            Some(note) => {
                return Some((note, i));
            },
            None => {},
        }
        i = i + 1;
    }
    None
}

/// The note that a key finds in a compact action of the Ironwood pool.
///
/// This is `zcash_note_encryption::try_compact_note_decryption` in the domain
/// `orchard::note_encryption::IronwoodDomain` of that action, with the incoming viewing key of the given
/// full viewing key and scope. What it finds is a function of what is passed, and has the name
/// [`ironwood_decryption`].
#[verifier::external_body]
fn ironwood_decrypt(key: &OrchardKey, action: &CompactAction) -> (r: Option<OrchardNote>)
    requires
        orchard_key_encoded(key.fvk@),
        pallas_base_canonical(action.nullifier@),
        pallas_base_canonical(action.cmx@),
    ensures
        r == ironwood_decryption(
            key.fvk@,
            key.scope is Internal,
            action.nullifier@,
            action.cmx@,
            action.ephemeral_key@,
            action.ciphertext@,
        ),
{
    let compact = OrchardCompactAction::from_parts(
        OrchardNullifier::from_bytes(&action.nullifier).unwrap(), OrchardCommitment::from_bytes(&action.cmx).unwrap(),
        EphemeralKeyBytes(action.ephemeral_key), action.ciphertext);
    let (note, to) = try_compact_note_decryption(
        &IronwoodDomain::for_compact_action(&compact),
        &OrchardFullViewingKey::from_bytes(&key.fvk)?.to_ivk(
            match key.scope { Scope::External => ExternalScope, Scope::Internal => InternalScope }).prepare(),
        &compact,
    )?;
    let version = match note.version() { OutsideNoteVersion::V2 => NoteVersion::V2, OutsideNoteVersion::V3 => NoteVersion::V3 };
    Some(OrchardNote { recipient: to.to_raw_address_bytes(), value: note.value().inner(), rho: note.rho().to_bytes(), rseed: *note.rseed().as_bytes(), version })
}

/// Which of the keys is the first to find a note in a compact action of the Ironwood pool, and the
/// note.
fn ironwood_first_decryption(keys: &Vec<OrchardKey>, action: &CompactAction) -> (r: Option<
    (OrchardNote, usize),
>)
    requires
        forall|k: int| 0 <= k < keys@.len() ==> orchard_key_encoded((#[trigger] keys@[k]).fvk@),
        pallas_base_canonical(action.nullifier@),
        pallas_base_canonical(action.cmx@),
    ensures
        r matches Some((note, k)) ==> k < keys@.len() && ironwood_decryption(
                keys@[k as int].fvk@,
                keys@[k as int].scope is Internal,
                action.nullifier@,
                action.cmx@,
                action.ephemeral_key@,
                action.ciphertext@,
            ) == Some(note),
        forall|j: int|
            #![trigger keys@[j]]
            0 <= j < (match r {
                Some((_, k)) => k as int,
                None => keys@.len() as int,
            }) ==> ironwood_decryption(
                keys@[j].fvk@,
                keys@[j].scope is Internal,
                action.nullifier@,
                action.cmx@,
                action.ephemeral_key@,
                action.ciphertext@,
            ) is None,
{
    let mut i: usize = 0;
    while i < keys.len()
        invariant
            i <= keys@.len(),
            forall|k: int|
                0 <= k < keys@.len() ==> orchard_key_encoded((#[trigger] keys@[k]).fvk@),
            pallas_base_canonical(action.nullifier@),
            pallas_base_canonical(action.cmx@),
            forall|j: int|
                #![trigger keys@[j]]
                0 <= j < i ==> ironwood_decryption(
                    keys@[j].fvk@,
                    keys@[j].scope is Internal,
                    action.nullifier@,
                    action.cmx@,
                    action.ephemeral_key@,
                    action.ciphertext@,
                ) is None,
        decreases keys@.len() - i,
    {
        match ironwood_decrypt(&keys[i], action) {
            Some(note) => {
                return Some((note, i));
            },
            None => {},
        }
        i = i + 1;
    }
    None
}

/// The nullifier of a Sapling note at a position of the commitment tree.
///
/// This is `sapling_crypto::Note::nf` with the nullifier-deriving key of the scope, for the note
/// and the key that the bytes encode. It is a function of what is passed, and has the name
/// [`sapling_nullifier`]; there is no answer for bytes that encode no note.
#[verifier::external_body]
fn derive_sapling_nullifier(key: &SaplingKey, note: &SaplingNote, position: u64) -> (r: Option<
    [u8; 32],
>)
    requires
        sapling_key_encoded(key.dfvk@),
    ensures
        optional_bytes(r) == sapling_nullifier(key.dfvk@, key.scope is Internal, *note, position),
{
    let dfvk = DiversifiableFullViewingKey::from_bytes(&key.dfvk)?;
    let nk = dfvk.to_nk(match key.scope { Scope::External => OutsideScope::External, Scope::Internal => OutsideScope::Internal });
    let recipient = PaymentAddress::from_bytes(&note.recipient)?;
    let rseed = match note.form {
        BeforeZip212 => Rseed::BeforeZip212(Option::<ValueCommitTrapdoor>::from(ValueCommitTrapdoor::from_bytes(note.rseed))?.inner()),
        AfterZip212 => Rseed::AfterZip212(note.rseed),
    };
    let outside = OutsideSaplingNote::from_parts(recipient, SaplingNoteValue::from_raw(note.value), rseed);
    Some(outside.nf(&nk, position).0)
}

/// The nullifier of an Orchard or Ironwood note.
///
/// This is `orchard::Note::nullifier`, for the note and the key that the bytes encode. It is a
/// function of what is passed, and has the name [`orchard_nullifier`]; there is no answer for
/// bytes that encode no note or no key.
#[verifier::external_body]
fn derive_orchard_nullifier(key: &OrchardKey, note: &OrchardNote) -> (r: Option<[u8; 32]>)
    ensures
        optional_bytes(r) == orchard_nullifier(key.fvk@, *note),
{
    let fvk = OrchardFullViewingKey::from_bytes(&key.fvk)?;
    let recipient = Option::from(OrchardAddress::from_raw_address_bytes(&note.recipient))?;
    let rho = Option::from(Rho::from_bytes(&note.rho))?;
    let rseed = Option::from(RandomSeed::from_bytes(note.rseed, &rho))?;
    let version = match note.version { NoteVersion::V2 => OutsideNoteVersion::V2, NoteVersion::V3 => OutsideNoteVersion::V3 };
    let outside: Option<OutsideOrchardNote> = OutsideOrchardNote::from_parts(recipient, OrchardNoteValue::from_raw(note.value), rho, rseed, version).into();
    outside.map(|n| n.nullifier(&fvk).to_bytes())
}

/// The bytes of an array that may be missing.
pub open spec fn optional_bytes(array: Option<[u8; 32]>) -> Option<Seq<u8>> {
    match array {
        Some(array) => Some(array@),
        None => None,
    }
}

/// A pool whose outputs are found by trial decryption.
pub trait ShieldedPool: Sized {
    /// The keys that are tried.
    type Key: Copy;

    /// The outputs that they are tried on.
    type Output: View + Copy;

    /// The notes that are found.
    type Note: Copy;

    /// Whether a key can be used.
    spec fn key_valid(key: Self::Key) -> bool;

    /// Whether a key can be tried on an output.
    spec fn output_valid(output: <Self::Output as View>::V) -> bool;

    /// The note that a key finds in an output, if any.
    spec fn finds(key: Self::Key, output: <Self::Output as View>::V) -> Option<Self::Note>;

    /// The nullifier of a note at a position of the commitment tree.
    spec fn nullifier_of(key: Self::Key, note: Self::Note, position: u64) -> Option<Seq<u8>>;

    /// The commitment to the note in an output.
    spec fn commitment_of(output: <Self::Output as View>::V) -> Seq<u8>;

    /// The ephemeral key of an output.
    spec fn ephemeral_key_of(output: <Self::Output as View>::V) -> Seq<u8>;

    /// The account that a key belongs to.
    spec fn account_of(key: Self::Key) -> AccountId;

    /// The scope of a key.
    spec fn scope_of(key: Self::Key) -> Scope;

    /// Which of the keys is the first to find a note in an output, and the note.
    fn first_decryption(keys: &Vec<Self::Key>, output: &Self::Output) -> (r: Option<
        (Self::Note, usize),
    >)
        requires
            forall|k: int| 0 <= k < keys@.len() ==> Self::key_valid(#[trigger] keys@[k]),
            Self::output_valid(output@),
        ensures
            match r {
                Some((note, k)) => k < keys@.len() && Self::finds(keys@[k as int], output@) == Some(
                    note,
                ) && forall|j: int|
                    0 <= j < k ==> Self::finds(#[trigger] keys@[j], output@) is None,
                None => forall|j: int|
                    0 <= j < keys@.len() ==> Self::finds(#[trigger] keys@[j], output@) is None,
            },
    ;

    /// Returns the nullifier of a note at a position of the commitment tree.
    fn nullifier(key: &Self::Key, note: &Self::Note, position: u64) -> (r: Option<[u8; 32]>)
        requires
            Self::key_valid(*key),
        ensures
            optional_bytes(r) == Self::nullifier_of(*key, *note, position),
    ;

    /// Returns the commitment to the note in an output.
    fn commitment(output: &Self::Output) -> (r: [u8; 32])
        ensures
            r@ == Self::commitment_of(output@),
    ;

    /// Returns the ephemeral key of an output.
    fn ephemeral_key(output: &Self::Output) -> (r: [u8; 32])
        ensures
            r@ == Self::ephemeral_key_of(output@),
    ;

    /// Returns the account that a key belongs to.
    fn account(key: &Self::Key) -> (r: AccountId)
        ensures
            r == Self::account_of(*key),
    ;

    /// Returns the scope of a key.
    fn scope(key: &Self::Key) -> (r: Scope)
        ensures
            r == Self::scope_of(*key),
    ;
}

/// The first of the keys that finds a note in an output, and the note.
pub open spec fn first_match<P: ShieldedPool>(
    keys: Seq<P::Key>,
    output: <P::Output as View>::V,
) -> Option<(P::Note, int)>
    decreases keys.len(),
{
    if keys.len() == 0 {
        None
    } else {
        match first_match::<P>(keys.drop_last(), output) {
            Some(found) => Some(found),
            None => match P::finds(keys.last(), output) {
                Some(note) => Some((note, keys.len() - 1)),
                None => None,
            },
        }
    }
}

/// What was found, with the number of the key as the number that it is.
pub open spec fn as_match<N>(found: Option<(N, usize)>) -> Option<(N, int)> {
    match found {
        Some((note, k)) => Some((note, k as int)),
        None => None,
    }
}

/// A key is the first to find a note if none before it finds one; and none of them finds one if
/// each of them does not.
proof fn lemma_first_match<P: ShieldedPool>(
    keys: Seq<P::Key>,
    output: <P::Output as View>::V,
    found: Option<(P::Note, int)>,
)
    requires
        match found {
            Some((note, k)) => 0 <= k < keys.len() && P::finds(keys[k], output) == Some(note)
                && forall|j: int| 0 <= j < k ==> P::finds(#[trigger] keys[j], output) is None,
            None => forall|j: int|
                0 <= j < keys.len() ==> P::finds(#[trigger] keys[j], output) is None,
        },
    ensures
        first_match::<P>(keys, output) == found,
    decreases keys.len(),
{
    if keys.len() > 0 {
        let before = keys.drop_last();
        match found {
            Some((note, k)) => {
                if k < before.len() {
                    lemma_first_match::<P>(before, output, found);
                } else {
                    lemma_first_match::<P>(before, output, None);
                }
            },
            None => {
                lemma_first_match::<P>(before, output, None);
            },
        }
    }
}

/// Which of the keys is the first to find a note in each of the outputs, and the notes.
pub(crate) fn try_decrypt<P: ShieldedPool>(keys: &Vec<P::Key>, outputs: &Vec<P::Output>) -> (r: Vec<
    Option<(P::Note, usize)>,
>)
    requires
        forall|k: int| 0 <= k < keys@.len() ==> P::key_valid(#[trigger] keys@[k]),
        forall|i: int| 0 <= i < outputs@.len() ==> P::output_valid((#[trigger] outputs@[i])@),
    ensures
        r@.len() == outputs@.len(),
        forall|i: int|
            0 <= i < outputs@.len() ==> as_match(#[trigger] r@[i]) == first_match::<P>(
                keys@,
                outputs@[i]@,
            ),
{
    let mut found: Vec<Option<(P::Note, usize)>> = Vec::new();
    let mut i: usize = 0;
    while i < outputs.len()
        invariant
            i <= outputs.len(),
            forall|k: int| 0 <= k < keys@.len() ==> P::key_valid(#[trigger] keys@[k]),
            forall|i: int| 0 <= i < outputs@.len() ==> P::output_valid((#[trigger] outputs@[i])@),
            found@.len() == i,
            forall|k: int|
                0 <= k < i ==> as_match(#[trigger] found@[k]) == first_match::<P>(
                    keys@,
                    outputs@[k]@,
                ),
        decreases outputs.len() - i,
    {
        let result = P::first_decryption(keys, &outputs[i]);
        proof {
            lemma_first_match::<P>(keys@, outputs@[i as int]@, as_match(result));
        }
        found.push(result);
        i = i + 1;
    }
    found
}

/// A key that was found is one of the keys.
pub proof fn lemma_first_match_index<P: ShieldedPool>(
    keys: Seq<P::Key>,
    output: <P::Output as View>::V,
)
    ensures
        first_match::<P>(keys, output) matches Some((_, k)) ==> 0 <= k < keys.len(),
    decreases keys.len(),
{
    if keys.len() > 0 {
        lemma_first_match_index::<P>(keys.drop_last(), output);
    }
}

/// The Sapling pool.
pub struct SaplingPool;

/// The Orchard pool.
pub struct OrchardPool;

/// The Ironwood pool.
pub struct IronwoodPool;

impl ShieldedPool for SaplingPool {
    type Key = SaplingKey;

    type Output = SaplingOutput;

    type Note = SaplingNote;

    open spec fn key_valid(key: SaplingKey) -> bool {
        sapling_key_encoded(key.dfvk@)
    }

    open spec fn output_valid(output: SaplingOutputView) -> bool {
        jubjub_base_canonical(output.cmu)
    }

    open spec fn finds(key: SaplingKey, output: SaplingOutputView) -> Option<SaplingNote> {
        sapling_decryption(
            key.dfvk@,
            key.scope is Internal,
            output.zip212,
            output.ephemeral_key,
            output.cmu,
            output.ciphertext,
        )
    }

    open spec fn nullifier_of(key: SaplingKey, note: SaplingNote, position: u64) -> Option<Seq<u8>> {
        sapling_nullifier(key.dfvk@, key.scope is Internal, note, position)
    }

    open spec fn commitment_of(output: SaplingOutputView) -> Seq<u8> {
        output.cmu
    }

    open spec fn ephemeral_key_of(output: SaplingOutputView) -> Seq<u8> {
        output.ephemeral_key
    }

    open spec fn account_of(key: SaplingKey) -> AccountId {
        key.account
    }

    open spec fn scope_of(key: SaplingKey) -> Scope {
        key.scope
    }

    fn first_decryption(keys: &Vec<SaplingKey>, output: &SaplingOutput) -> (r: Option<
        (SaplingNote, usize),
    >) {
        assert(output@.cmu == output.cmu@);
        sapling_first_decryption(keys, output)
    }

    fn nullifier(key: &SaplingKey, note: &SaplingNote, position: u64) -> (r: Option<[u8; 32]>) {
        derive_sapling_nullifier(key, note, position)
    }

    fn commitment(output: &SaplingOutput) -> (r: [u8; 32]) {
        assert(output@.cmu == output.cmu@);
        output.cmu
    }

    fn ephemeral_key(output: &SaplingOutput) -> (r: [u8; 32]) {
        assert(output@.ephemeral_key == output.ephemeral_key@);
        output.ephemeral_key
    }

    fn account(key: &SaplingKey) -> (r: AccountId) {
        key.account
    }

    fn scope(key: &SaplingKey) -> (r: Scope) {
        key.scope
    }
}

impl ShieldedPool for OrchardPool {
    type Key = OrchardKey;

    type Output = CompactAction;

    type Note = OrchardNote;

    open spec fn key_valid(key: OrchardKey) -> bool {
        orchard_key_encoded(key.fvk@)
    }

    open spec fn output_valid(action: CompactActionView) -> bool {
        pallas_base_canonical(action.nullifier) && pallas_base_canonical(action.cmx)
    }

    open spec fn finds(key: OrchardKey, action: CompactActionView) -> Option<OrchardNote> {
        orchard_decryption(
            key.fvk@,
            key.scope is Internal,
            action.nullifier,
            action.cmx,
            action.ephemeral_key,
            action.ciphertext,
        )
    }

    open spec fn nullifier_of(key: OrchardKey, note: OrchardNote, position: u64) -> Option<Seq<u8>> {
        orchard_nullifier(key.fvk@, note)
    }

    open spec fn commitment_of(action: CompactActionView) -> Seq<u8> {
        action.cmx
    }

    open spec fn ephemeral_key_of(action: CompactActionView) -> Seq<u8> {
        action.ephemeral_key
    }

    open spec fn account_of(key: OrchardKey) -> AccountId {
        key.account
    }

    open spec fn scope_of(key: OrchardKey) -> Scope {
        key.scope
    }

    fn first_decryption(keys: &Vec<OrchardKey>, action: &CompactAction) -> (r: Option<
        (OrchardNote, usize),
    >) {
        assert(action@.cmx == action.cmx@);
        orchard_first_decryption(keys, action)
    }

    fn nullifier(key: &OrchardKey, note: &OrchardNote, position: u64) -> (r: Option<[u8; 32]>) {
        derive_orchard_nullifier(key, note)
    }

    fn commitment(action: &CompactAction) -> (r: [u8; 32]) {
        assert(action@.cmx == action.cmx@);
        action.cmx
    }

    fn ephemeral_key(action: &CompactAction) -> (r: [u8; 32]) {
        assert(action@.ephemeral_key == action.ephemeral_key@);
        action.ephemeral_key
    }

    fn account(key: &OrchardKey) -> (r: AccountId) {
        key.account
    }

    fn scope(key: &OrchardKey) -> (r: Scope) {
        key.scope
    }
}

impl ShieldedPool for IronwoodPool {
    type Key = OrchardKey;

    type Output = CompactAction;

    type Note = OrchardNote;

    open spec fn key_valid(key: OrchardKey) -> bool {
        orchard_key_encoded(key.fvk@)
    }

    open spec fn output_valid(action: CompactActionView) -> bool {
        pallas_base_canonical(action.nullifier) && pallas_base_canonical(action.cmx)
    }

    open spec fn finds(key: OrchardKey, action: CompactActionView) -> Option<OrchardNote> {
        ironwood_decryption(
            key.fvk@,
            key.scope is Internal,
            action.nullifier,
            action.cmx,
            action.ephemeral_key,
            action.ciphertext,
        )
    }

    open spec fn nullifier_of(key: OrchardKey, note: OrchardNote, position: u64) -> Option<Seq<u8>> {
        orchard_nullifier(key.fvk@, note)
    }

    open spec fn commitment_of(action: CompactActionView) -> Seq<u8> {
        action.cmx
    }

    open spec fn ephemeral_key_of(action: CompactActionView) -> Seq<u8> {
        action.ephemeral_key
    }

    open spec fn account_of(key: OrchardKey) -> AccountId {
        key.account
    }

    open spec fn scope_of(key: OrchardKey) -> Scope {
        key.scope
    }

    fn first_decryption(keys: &Vec<OrchardKey>, action: &CompactAction) -> (r: Option<
        (OrchardNote, usize),
    >) {
        assert(action@.cmx == action.cmx@);
        ironwood_first_decryption(keys, action)
    }

    fn nullifier(key: &OrchardKey, note: &OrchardNote, position: u64) -> (r: Option<[u8; 32]>) {
        derive_orchard_nullifier(key, note)
    }

    fn commitment(action: &CompactAction) -> (r: [u8; 32]) {
        assert(action@.cmx == action.cmx@);
        action.cmx
    }

    fn ephemeral_key(action: &CompactAction) -> (r: [u8; 32]) {
        assert(action@.ephemeral_key == action.ephemeral_key@);
        action.ephemeral_key
    }

    fn account(key: &OrchardKey) -> (r: AccountId) {
        key.account
    }

    fn scope(key: &OrchardKey) -> (r: Scope) {
        key.scope
    }
}

/// The keys of an account that a wallet scans for.
#[derive(Clone, Copy, Debug, PartialEq, Eq)]
pub struct AccountKeys {
    pub account: AccountId,
    /// The encoding of the account's Sapling diversifiable full viewing key, if it has one.
    pub sapling: Option<[u8; 128]>,
    /// The encoding of the account's Orchard full viewing key, if it has one.
    pub orchard: Option<[u8; 96]>,
}

/// The keys that a wallet scans with. The Orchard keys also find the notes of the Ironwood pool.
#[derive(Debug)]
pub struct ScanningKeys {
    sapling: Vec<SaplingKey>,
    orchard: Vec<OrchardKey>,
}

/// The Sapling keys of accounts: for each account that has one, its external key and then its
/// internal key.
pub open spec fn sapling_keys_of(accounts: Seq<AccountKeys>) -> Seq<SaplingKey>
    decreases accounts.len(),
{
    if accounts.len() == 0 {
        Seq::empty()
    } else {
        let before = sapling_keys_of(accounts.drop_last());
        let account = accounts.last().account;
        match accounts.last().sapling {
            Some(dfvk) => before.push(SaplingKey { account, scope: Scope::External, dfvk }).push(
                SaplingKey { account, scope: Scope::Internal, dfvk },
            ),
            None => before,
        }
    }
}

/// The Orchard keys of accounts: for each account that has one, its external key and then its
/// internal key.
pub open spec fn orchard_keys_of(accounts: Seq<AccountKeys>) -> Seq<OrchardKey>
    decreases accounts.len(),
{
    if accounts.len() == 0 {
        Seq::empty()
    } else {
        let before = orchard_keys_of(accounts.drop_last());
        let account = accounts.last().account;
        match accounts.last().orchard {
            Some(fvk) => before.push(OrchardKey { account, scope: Scope::External, fvk }).push(
                OrchardKey { account, scope: Scope::Internal, fvk },
            ),
            None => before,
        }
    }
}

/// Whether the keys of an account are encoded as they should be.
pub open spec fn account_keys_valid(keys: AccountKeys) -> bool {
    &&& keys.sapling matches Some(dfvk) ==> jubjub_point_encoded(dfvk@.take(32))
        && sapling_key_encoded(dfvk@)
    &&& keys.orchard matches Some(fvk) ==> orchard_key_encoded(fvk@)
}

impl ScanningKeys {
    #[verifier::type_invariant]
    pub(crate) closed spec fn valid(self) -> bool {
        &&& forall|k: int|
            0 <= k < self.sapling@.len() ==> SaplingPool::key_valid(#[trigger] self.sapling@[k])
        &&& forall|k: int|
            0 <= k < self.orchard@.len() ==> OrchardPool::key_valid(#[trigger] self.orchard@[k])
    }

    /// The Sapling keys.
    pub closed spec fn sapling_seq(self) -> Seq<SaplingKey> {
        self.sapling@
    }

    /// The Orchard keys.
    pub closed spec fn orchard_seq(self) -> Seq<OrchardKey> {
        self.orchard@
    }

    /// No keys at all.
    pub fn empty() -> (r: ScanningKeys)
        ensures
            r.sapling_seq() == Seq::<SaplingKey>::empty(),
            r.orchard_seq() == Seq::<OrchardKey>::empty(),
    {
        ScanningKeys { sapling: Vec::new(), orchard: Vec::new() }
    }

    /// The keys of the given accounts, each for both of its scopes, unless bytes are among them
    /// that encode no key.
    pub fn from_account_keys(accounts: &Vec<AccountKeys>) -> (r: Option<ScanningKeys>)
        ensures
            r is Some <==> forall|i: int|
                0 <= i < accounts@.len() ==> account_keys_valid(#[trigger] accounts@[i]),
            r matches Some(keys) ==> keys.sapling_seq() == sapling_keys_of(accounts@)
                && keys.orchard_seq() == orchard_keys_of(accounts@),
    {
        let mut sapling: Vec<SaplingKey> = Vec::new();
        let mut orchard: Vec<OrchardKey> = Vec::new();
        let mut i: usize = 0;
        while i < accounts.len()
            invariant
                i <= accounts.len(),
                sapling@ == sapling_keys_of(accounts@.take(i as int)),
                orchard@ == orchard_keys_of(accounts@.take(i as int)),
                forall|k: int| 0 <= k < i ==> account_keys_valid(#[trigger] accounts@[k]),
                forall|k: int|
                    0 <= k < sapling@.len() ==> SaplingPool::key_valid(#[trigger] sapling@[k]),
                forall|k: int|
                    0 <= k < orchard@.len() ==> OrchardPool::key_valid(#[trigger] orchard@[k]),
            decreases accounts.len() - i,
        {
            assert(accounts@.take(i as int + 1).drop_last() =~= accounts@.take(i as int));
            let keys = accounts[i];
            if let Some(dfvk) = keys.sapling {
                if !is_jubjub_point(&front(&dfvk)) || !is_sapling_key(&dfvk) {
                    assert(!account_keys_valid(accounts@[i as int]));
                    return None;
                }
                sapling.push(SaplingKey { account: keys.account, scope: Scope::External, dfvk });
                sapling.push(SaplingKey { account: keys.account, scope: Scope::Internal, dfvk });
            }
            if let Some(fvk) = keys.orchard {
                if !is_orchard_key(&fvk) {
                    assert(!account_keys_valid(accounts@[i as int]));
                    return None;
                }
                orchard.push(OrchardKey { account: keys.account, scope: Scope::External, fvk });
                orchard.push(OrchardKey { account: keys.account, scope: Scope::Internal, fvk });
            }
            i = i + 1;
        }
        assert(accounts@.take(i as int) =~= accounts@);
        Some(ScanningKeys { sapling, orchard })
    }

    /// The Sapling keys.
    pub fn sapling(&self) -> (r: &Vec<SaplingKey>)
        ensures
            r@ == self.sapling_seq(),
            forall|k: int| 0 <= k < r@.len() ==> SaplingPool::key_valid(#[trigger] r@[k]),
    {
        proof {
            use_type_invariant(self);
        }
        &self.sapling
    }

    /// The Orchard keys, which are the Ironwood keys as well.
    pub fn orchard(&self) -> (r: &Vec<OrchardKey>)
        ensures
            r@ == self.orchard_seq(),
            forall|k: int| 0 <= k < r@.len() ==> OrchardPool::key_valid(#[trigger] r@[k]),
    {
        proof {
            use_type_invariant(self);
        }
        &self.orchard
    }
}

} // verus!
