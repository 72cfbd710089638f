//! Notes and what identifies them, as they are stored.

use vstd::prelude::*;

use crate::field::to_array;
use crate::field::array_of;
use crate::field::copy_bytes;
use crate::field::jubjub_scalar_canonical;
use crate::field::lemma_array_of;
use crate::field::pallas_base_canonical;
use crate::pool::NoteVersion;
use crate::pool::ShieldedProtocol;
use crate::scanning::pools::is_jubjub_scalar;
use crate::scanning::pools::is_orchard_note;
use crate::scanning::pools::is_orchard_nullifier;
use crate::scanning::pools::is_sapling_address;
use crate::scanning::pools::orchard_note_encoded;
use crate::scanning::pools::sapling_address_encoded;
use crate::scanning::pools::OrchardNote;
use crate::scanning::pools::SaplingNote;
use crate::scanning::pools::SaplingNoteForm;

use super::proto;
use super::types::Error;
use super::types::NoteId;
use super::types::Nullifier;
use super::types::OutPoint;
use super::types::TxId;

verus! {

/// A note of either protocol.
#[derive(Clone, Copy, Debug, PartialEq, Eq)]
pub enum Note {
    Sapling(SaplingNote),
    Orchard(OrchardNote),
}

impl View for Note {
    type V = Note;

    open spec fn view(&self) -> Note {
        *self
    }
}

impl View for TxId {
    type V = TxId;

    open spec fn view(&self) -> TxId {
        *self
    }
}

/// Whether bytes are as many as they should be.
pub open spec fn length_error(bytes: Seq<u8>, n: nat) -> Option<Error> {
    if bytes.len() == n {
        None
    } else {
        Some(Error::ByteVecToArrayConversion)
    }
}

impl proto::TxId {
    /// Why the record cannot be read.
    pub open spec fn error(self) -> Option<Error> {
        length_error(self.hash@, 32)
    }

    /// The identifier that the record holds.
    pub open spec fn id(self) -> TxId {
        TxId { bytes: array_of::<32>(self.hash@) }
    }

    /// The record of a transaction identifier.
    pub fn from(txid: &TxId) -> (r: proto::TxId)
        ensures
            r.hash@ == txid.bytes@,
            r.error() is None,
            r.id() == *txid,
    {
        proof {
            lemma_array_of(txid.bytes);
        }
        proto::TxId { hash: copy_bytes(txid.bytes.as_slice()) }
    }
}

impl TxId {
    /// The transaction identifier that a record holds.
    pub fn try_from(record: &proto::TxId) -> (r: Result<TxId, Error>)
        ensures
            match record.error() {
                Some(e) => r matches Err(f) && f == e,
                None => r matches Ok(id) && id == record.id(),
            },
    {
        if record.hash.len() != 32 {
            return Err(Error::ByteVecToArrayConversion);
        }
        let bytes = to_array::<32>(&record.hash);
        proof {
            lemma_array_of(bytes);
        }
        Ok(TxId { bytes })
    }
}

impl proto::OutPoint {
    /// Why the record cannot be read.
    pub open spec fn error(self) -> Option<Error> {
        length_error(self.hash@, 32)
    }

    /// The place that the record holds.
    pub open spec fn point(self) -> OutPoint {
        OutPoint { hash: array_of::<32>(self.hash@), n: self.index }
    }

    /// Reads the record.
    pub fn read(&self) -> (r: Result<OutPoint, Error>)
        ensures
            match self.error() {
                Some(e) => r matches Err(f) && f == e,
                None => r matches Ok(point) && point == self.point(),
            },
    {
        if self.hash.len() != 32 {
            return Err(Error::ByteVecToArrayConversion);
        }
        let hash = to_array::<32>(&self.hash);
        proof {
            lemma_array_of(hash);
        }
        Ok(OutPoint { hash, n: self.index })
    }
}

/// The record of a place of a transparent output.
pub fn write_outpoint(outpoint: &OutPoint) -> (r: proto::OutPoint)
    ensures
        r.hash@ == outpoint.hash@,
        r.index == outpoint.n,
        r.error() is None,
        r.point() == *outpoint,
{
    proof {
        lemma_array_of(outpoint.hash);
    }
    proto::OutPoint { hash: copy_bytes(outpoint.hash.as_slice()), index: outpoint.n }
}

/// Why a record that may be missing cannot be read.
pub open spec fn txid_error(record: Option<proto::TxId>) -> Option<Error> {
    match record {
        None => Some(Error::ProtoMissingField("tx_id")),
        Some(id) => id.error(),
    }
}

/// Reads a transaction identifier that may be missing.
pub fn read_txid(record: &Option<proto::TxId>) -> (r: Result<TxId, Error>)
    ensures
        match txid_error(*record) {
            Some(e) => r matches Err(f) && f == e,
            None => r matches Ok(id) && id == (*record)->0.id(),
        },
{
    match record {
        None => Err(Error::ProtoMissingField("tx_id")),
        Some(id) => TxId::try_from(id),
    }
}

/// Why a record that may be missing cannot be read.
pub open spec fn outpoint_error(record: Option<proto::OutPoint>) -> Option<Error> {
    match record {
        None => Some(Error::ProtoMissingField("outpoint")),
        Some(point) => point.error(),
    }
}

/// Reads a place of a transparent output that may be missing.
pub fn read_outpoint(record: &Option<proto::OutPoint>) -> (r: Result<OutPoint, Error>)
    ensures
        match outpoint_error(*record) {
            Some(e) => r matches Err(f) && f == e,
            None => r matches Ok(point) && point == (*record)->0.point(),
        },
{
    match record {
        None => Err(Error::ProtoMissingField("outpoint")),
        Some(point) => point.read(),
    }
}

impl proto::NoteId {
    /// Why the record cannot be read.
    pub open spec fn error(self) -> Option<Error> {
        match txid_error(self.tx_id) {
            Some(e) => Some(e),
            None => if self.pool != proto::POOL_SAPLING && self.pool != proto::POOL_ORCHARD {
                Some(Error::InvalidPool)
            } else if self.output_index > u16::MAX {
                Some(Error::IntegerConversion)
            } else {
                None
            },
        }
    }

    /// The identifier that the record holds.
    pub open spec fn id(self) -> NoteId {
        NoteId {
            txid: self.tx_id->0.id(),
            protocol: if self.pool == proto::POOL_SAPLING {
                ShieldedProtocol::Sapling
            } else {
                ShieldedProtocol::Orchard
            },
            output_index: self.output_index as u16,
        }
    }

    /// Reads the record.
    pub fn read(&self) -> (r: Result<NoteId, Error>)
        ensures
            match self.error() {
                Some(e) => r matches Err(f) && f == e,
                None => r matches Ok(id) && id == self.id(),
            },
    {
        let txid = match read_txid(&self.tx_id) {
            Ok(txid) => txid,
            Err(e) => {
                return Err(e);
            },
        };
        let protocol = if self.pool == proto::POOL_SAPLING {
            ShieldedProtocol::Sapling
        } else if self.pool == proto::POOL_ORCHARD {
            ShieldedProtocol::Orchard
        } else {
            return Err(Error::InvalidPool);
        };
        if self.output_index > u16::MAX as u32 {
            return Err(Error::IntegerConversion);
        }
        Ok(NoteId { txid, protocol, output_index: self.output_index as u16 })
    }
}

/// The record of the identifier of a note.
pub fn write_note_id(id: &NoteId) -> (r: proto::NoteId)
    ensures
        r.tx_id matches Some(t) && t.hash@ == id.txid.bytes@,
        r.pool == (match id.protocol {
            ShieldedProtocol::Sapling => proto::POOL_SAPLING,
            ShieldedProtocol::Orchard => proto::POOL_ORCHARD,
        }),
        r.output_index == id.output_index,
        r.error() is None,
        r.id() == *id,
{
    proto::NoteId {
        tx_id: Some(proto::TxId::from(&id.txid)),
        pool: match id.protocol {
            ShieldedProtocol::Sapling => proto::POOL_SAPLING,
            ShieldedProtocol::Orchard => proto::POOL_ORCHARD,
        },
        output_index: id.output_index as u32,
    }
}

impl proto::Nullifier {
    /// Why the record cannot be read.
    pub open spec fn error(self) -> Option<Error> {
        match length_error(self.nullifier@, 32) {
            Some(e) => Some(e),
            None => if self.protocol == proto::PROTOCOL_ORCHARD && !pallas_base_canonical(
                self.nullifier@,
            ) {
                Some(Error::InvalidNullifier)
            } else {
                None
            },
        }
    }

    /// The nullifier that the record holds.
    pub open spec fn nf(self) -> Nullifier {
        Nullifier {
            protocol: if self.protocol == proto::PROTOCOL_ORCHARD {
                ShieldedProtocol::Orchard
            } else {
                ShieldedProtocol::Sapling
            },
            bytes: array_of::<32>(self.nullifier@),
        }
    }

    /// Reads the record.
    pub fn read(&self) -> (r: Result<Nullifier, Error>)
        ensures
            match self.error() {
                Some(e) => r matches Err(f) && f == e,
                None => r matches Ok(nf) && nf == self.nf() && nullifier_valid(nf),
            },
    {
        if self.nullifier.len() != 32 {
            return Err(Error::ByteVecToArrayConversion);
        }
        let bytes = to_array::<32>(&self.nullifier);
        proof {
            lemma_array_of(bytes);
        }
        if self.protocol == proto::PROTOCOL_ORCHARD {
            if !is_orchard_nullifier(&bytes) {
                return Err(Error::InvalidNullifier);
            }
            Ok(Nullifier { protocol: ShieldedProtocol::Orchard, bytes })
        } else {
            Ok(Nullifier { protocol: ShieldedProtocol::Sapling, bytes })
        }
    }
}

/// Whether bytes are a nullifier of their protocol.
pub open spec fn nullifier_valid(nf: Nullifier) -> bool {
    nf.protocol == ShieldedProtocol::Orchard ==> pallas_base_canonical(nf.bytes@)
}

/// The record of a nullifier.
pub fn write_nullifier(nf: &Nullifier) -> (r: proto::Nullifier)
    ensures
        r.protocol == (match nf.protocol {
            ShieldedProtocol::Sapling => proto::PROTOCOL_SAPLING,
            ShieldedProtocol::Orchard => proto::PROTOCOL_ORCHARD,
        }),
        r.nullifier@ == nf.bytes@,
        nullifier_valid(*nf) ==> r.error() is None,
        r.nf() == *nf,
{
    proof {
        lemma_array_of(nf.bytes);
    }
    proto::Nullifier {
        protocol: match nf.protocol {
            ShieldedProtocol::Sapling => proto::PROTOCOL_SAPLING,
            ShieldedProtocol::Orchard => proto::PROTOCOL_ORCHARD,
        },
        nullifier: copy_bytes(nf.bytes.as_slice()),
    }
}

/// Whether the parts of a note make a note.
pub open spec fn note_valid(note: Note) -> bool {
    match note {
        Note::Sapling(note) => sapling_address_encoded(note.recipient@) && (note.form is BeforeZip212
            ==> jubjub_scalar_canonical(note.rseed@)),
        Note::Orchard(note) => orchard_note_encoded(
            note.recipient@,
            note.value,
            note.rho@,
            note.rseed@,
            note.version is V3,
        ),
    }
}

impl proto::Note {
    /// Whether the note is an Orchard note.
    pub open spec fn is_orchard(self) -> bool {
        self.protocol == proto::PROTOCOL_ORCHARD
    }

    /// Whether the version of an Orchard note is a known one; a record without a version is of
    /// version 2.
    pub open spec fn version_known(self) -> bool {
        self.orchard_note_version matches Some(v) ==> v == 2 || v == 3
    }

    /// The note that the record holds.
    pub open spec fn note(self) -> Note {
        let recipient = array_of::<43>(self.recipient@);
        let rseed = array_of::<32>(self.rseed->0.payload@);
        if self.is_orchard() {
            Note::Orchard(
                OrchardNote {
                    recipient,
                    value: self.value,
                    rho: array_of::<32>(self.rho->0@),
                    rseed,
                    version: if self.orchard_note_version == Some(3u32) {
                        NoteVersion::V3
                    } else {
                        NoteVersion::V2
                    },
                },
            )
        } else {
            Note::Sapling(
                SaplingNote {
                    recipient,
                    value: self.value,
                    form: if self.rseed->0.rseed_type == proto::RSEED_BEFORE_ZIP212 {
                        SaplingNoteForm::BeforeZip212
                    } else {
                        SaplingNoteForm::AfterZip212
                    },
                    rseed,
                },
            )
        }
    }

    /// Why the record cannot be read.
    pub open spec fn error(self) -> Option<Error> {
        if self.recipient@.len() != 43 {
            Some(Error::ByteVecToArrayConversion)
        } else if self.rseed is None {
            Some(Error::ProtoMissingField("rseed"))
        } else if self.rseed->0.payload@.len() != 32 {
            Some(Error::ByteVecToArrayConversion)
        } else if self.is_orchard() && self.rho is None {
            Some(Error::ProtoMissingField("rho"))
        } else if self.is_orchard() && self.rho->0@.len() != 32 {
            Some(Error::ByteVecToArrayConversion)
        } else if (self.is_orchard() && !self.version_known()) || !note_valid(self.note()) {
            Some(Error::InvalidNote)
        } else {
            None
        }
    }

    /// Reads the record.
    pub fn read(&self) -> (r: Result<Note, Error>)
        ensures
            match self.error() {
                Some(e) => r matches Err(f) && f == e,
                None => r matches Ok(note) && note == self.note() && note_valid(note),
            },
    {
        if self.recipient.len() != 43 {
            return Err(Error::ByteVecToArrayConversion);
        }
        let recipient = to_array::<43>(&self.recipient);
        let seed = match &self.rseed {
            Some(seed) => seed,
            None => {
                return Err(Error::ProtoMissingField("rseed"));
            },
        };
        if seed.payload.len() != 32 {
            return Err(Error::ByteVecToArrayConversion);
        }
        let rseed = to_array::<32>(&seed.payload);
        proof {
            lemma_array_of(recipient);
            lemma_array_of(rseed);
        }
        if self.protocol == proto::PROTOCOL_ORCHARD {
            let rho = match &self.rho {
                Some(rho) => rho,
                None => {
                    return Err(Error::ProtoMissingField("rho"));
                },
            };
            if rho.len() != 32 {
                return Err(Error::ByteVecToArrayConversion);
            }
            let rho = to_array::<32>(rho);
            proof {
                lemma_array_of(rho);
            }
            let version = match self.orchard_note_version {
                None => NoteVersion::V2,
                Some(2) => NoteVersion::V2,
                Some(3) => NoteVersion::V3,
                Some(_) => {
                    return Err(Error::InvalidNote);
                },
            };
            let note = OrchardNote { recipient, value: self.value, rho, rseed, version };
            if !is_orchard_note(&note) {
                return Err(Error::InvalidNote);
            }
            Ok(Note::Orchard(note))
        } else {
            let before_zip212: bool = seed.rseed_type == proto::RSEED_BEFORE_ZIP212;
            if !is_sapling_address(&recipient) || (before_zip212 && !is_jubjub_scalar(&rseed)) {
                return Err(Error::InvalidNote);
            }
            let form = if before_zip212 {
                SaplingNoteForm::BeforeZip212
            } else {
                SaplingNoteForm::AfterZip212
            };
            Ok(Note::Sapling(SaplingNote { recipient, value: self.value, form, rseed }))
        }
    }
}

/// The record of a note. An Orchard note's version is always recorded.
pub fn write_note(note: &Note) -> (r: proto::Note)
    ensures
        note_valid(*note) ==> r.error() is None && r.note() == *note,
        r.orchard_note_version == (match *note {
            Note::Sapling(_) => None,
            Note::Orchard(note) => Some(if note.version is V3 {
                3u32
            } else {
                2
            }),
        }),
{
    match note {
        Note::Sapling(note) => {
            proof {
                lemma_array_of(note.recipient);
                lemma_array_of(note.rseed);
            }
            proto::Note {
                protocol: proto::PROTOCOL_SAPLING,
                recipient: copy_bytes(note.recipient.as_slice()),
                value: note.value,
                rho: None,
                rseed: Some(
                    proto::RSeed {
                        rseed_type: match note.form {
                            SaplingNoteForm::BeforeZip212 => proto::RSEED_BEFORE_ZIP212,
                            SaplingNoteForm::AfterZip212 => proto::RSEED_AFTER_ZIP212,
                        },
                        payload: copy_bytes(note.rseed.as_slice()),
                    },
                ),
                orchard_note_version: None,
            }
        },
        Note::Orchard(note) => {
            proof {
                lemma_array_of(note.recipient);
                lemma_array_of(note.rseed);
                lemma_array_of(note.rho);
            }
            proto::Note {
                protocol: proto::PROTOCOL_ORCHARD,
                recipient: copy_bytes(note.recipient.as_slice()),
                value: note.value,
                rho: Some(copy_bytes(note.rho.as_slice())),
                rseed: Some(
                    proto::RSeed {
                        rseed_type: proto::RSEED_AFTER_ZIP212,
                        payload: copy_bytes(note.rseed.as_slice()),
                    },
                ),
                orchard_note_version: Some(
                    match note.version {
                        NoteVersion::V2 => 2,
                        NoteVersion::V3 => 3,
                    },
                ),
            }
        },
    }
}

} // verus!
