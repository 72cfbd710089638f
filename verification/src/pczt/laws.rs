//! What the roles do to a transaction, in terms of what they are given and what comes out.

use vstd::prelude::*;

use crate::components::orchard::WireBundle;
use crate::field::jubjub_base_canonical;
use crate::field::jubjub_scalar_canonical;
use crate::field::pallas_base_canonical;
use crate::field::pallas_scalar_canonical;
use crate::pool::BundleVersion;
use crate::pool::Flags;
use crate::pool::NoteVersion;
use crate::scanning::pools::jubjub_point_encoded;

use super::common::VersionError;
use super::creator::Creator;
use super::creator::PcztParts;
use super::creator::V6Creator;
use super::low_level_signer::Signer;
use super::orchard::orchard_empty_root;
use super::orchard::BundleParseError;
use super::orchard::ParsedBundle;
use super::orchard::PcztBundle;
use super::orchard_verifier::OrchardError as VerifierError;
use super::orchard_verifier::Verifier;
use super::prover::OrchardError;
use super::prover::Prover;
use super::sapling::first_fault;
use super::sapling::sapling_empty_root;
use super::sapling::SaplingParseError;
use super::sapling::SaplingPcztBundle;
use super::sapling::SaplingSpendView;
use super::transparent::TransparentPcztBundle;
use super::tx_extractor::verify_bundle;
use super::tx_extractor::CircuitVersion;
use super::tx_extractor::OrchardError as ExtractorError;
use super::Pczt;

verus! {

/// Whether no bundle of a transaction has anything in it, and no sum is anything but zero.
pub open spec fn nothing_in(pczt: Pczt) -> bool {
    &&& pczt.transparent.inputs@.len() == 0
    &&& pczt.transparent.outputs@.len() == 0
    &&& pczt.sapling.spends@.len() == 0
    &&& pczt.sapling.outputs@.len() == 0
    &&& pczt.sapling.value_sum == 0
    &&& pczt.sapling.bsk is None
    &&& is_unused(pczt.orchard)
    &&& is_unused(pczt.ironwood)
}

/// Whether a bundle has no actions, no proof and no signing key, and sums to zero.
pub open spec fn is_unused(bundle: PcztBundle) -> bool {
    &&& bundle.actions@.len() == 0
    &&& bundle.value_sum.0 == 0
    &&& bundle.zkproof is None
    &&& bundle.bsk is None
}

/// Whether a bundle is the one that was handed over, with its flags as a byte: it has the same
/// actions, anchor, proof and key, and a sum of the same magnitude and, unless it is zero, sign.
pub open spec fn hands_on(given: ParsedBundle, made: PcztBundle) -> bool {
    &&& made.actions == given.actions
    &&& made.anchor == given.anchor
    &&& made.zkproof == given.zkproof
    &&& made.bsk == given.bsk
    &&& made.value_sum.0 == given.value_sum.0
    &&& made.value_sum.1 == (given.value_sum.1 && given.value_sum.0 != 0)
    &&& (made.flags % 2 == 1) == given.flags.spends_enabled
    &&& ((made.flags / 2) % 2 == 1) == given.flags.outputs_enabled
}

/// Whether all notes of a bundle, those spent and those created, are of a version.
pub open spec fn notes_are(bundle: ParsedBundle, version: NoteVersion) -> bool {
    forall|i: int|
        0 <= i < bundle.actions@.len() ==> (#[trigger] bundle.actions@[i]).spend.note_version
            == version && bundle.actions@[i].output.note_version == version
}

/// Where a transaction is made of parts, it expires at the height and has the lock time, the
/// branch, the network and the version that the parts say, and nobody has added anything to it for
/// their own purposes. No input, output or shielded part may be added or removed any more.
pub proof fn lemma_parts_are_kept(parts: PcztParts, r: Option<Pczt>)
    requires
        call_ensures(Creator::build_from_parts, (parts,), r),
        r is Some,
    ensures
        r->0.global.expiry_height == parts.expiry_height,
        r->0.global.fallback_lock_time == Some(parts.lock_time),
        r->0.global.consensus_branch_id == parts.consensus_branch_id.code(),
        r->0.global.coin_type == (if parts.params.network is Main {
            133u32
        } else {
            1u32
        }),
        r->0.global.tx_version == (if parts.version is V4 {
            4u32
        } else if parts.version is V5 {
            5u32
        } else {
            6u32
        }),
        r->0.global.version_group_id == (if parts.version is V4 {
            0x892F_2085u32
        } else if parts.version is V5 {
            0x26A7_270Au32
        } else {
            0xD884_B698u32
        }),
        r->0.global.proprietary@.dom() =~= Set::<String>::empty(),
        (r->0.global.tx_modifiable == 4u8) <==> parts.transparent is Some && exists|i: int|
            0 <= i < parts.transparent->0.inputs@.len() && (
            #[trigger] parts.transparent->0.inputs@[i]).sighash_type % 0x80 == 3,
        r->0.global.tx_modifiable == 4 || r->0.global.tx_modifiable == 0,
{
    if let Some(bundle) = parts.transparent {
        if bundle@.has_sighash_single() {
            let i = choose|i: int|
                0 <= i < bundle@.inputs.len() && (#[trigger] bundle@.inputs[i]).sighash_type % 0x80
                    == 3;
            assert(bundle.inputs@[i].sighash_type % 0x80 == 3);
        }
        assert forall|i: int|
            0 <= i < bundle.inputs@.len() && (#[trigger] bundle.inputs@[i]).sighash_type % 0x80
                == 3 implies bundle@.has_sighash_single() by {
            assert(bundle@.inputs[i].sighash_type % 0x80 == 3);
        }
    }
}

/// The bundles that the parts hold become those of the transaction, and where the parts hold none
/// the transaction has one with nothing in it, at the root of the empty tree of its pool, with
/// spends and outputs enabled.
pub proof fn lemma_bundles_are_kept(parts: PcztParts, r: Option<Pczt>)
    requires
        call_ensures(Creator::build_from_parts, (parts,), r),
        r is Some,
    ensures
        match parts.transparent {
            Some(bundle) => r->0.transparent == bundle,
            None => r->0.transparent.inputs@.len() == 0 && r->0.transparent.outputs@.len() == 0,
        },
        match parts.sapling {
            Some(bundle) => r->0.sapling == bundle,
            None => {
                &&& r->0.sapling.spends@.len() == 0
                &&& r->0.sapling.outputs@.len() == 0
                &&& r->0.sapling.value_sum == 0
                &&& r->0.sapling.anchor == sapling_empty_root(32)
                &&& r->0.sapling.bsk is None
            },
        },
        match parts.orchard {
            Some(bundle) => hands_on(bundle, r->0.orchard) && r->0.orchard.flags < 4,
            None => {
                &&& is_unused(r->0.orchard)
                &&& r->0.orchard.flags == 3
                &&& r->0.orchard.anchor == orchard_empty_root(32)
            },
        },
        match parts.ironwood {
            Some(bundle) => {
                &&& hands_on(bundle, r->0.ironwood)
                &&& (r->0.ironwood.flags >= 4) == bundle.flags.cross_address_enabled
                &&& r->0.ironwood.flags < 8
            },
            None => {
                &&& is_unused(r->0.ironwood)
                &&& r->0.ironwood.flags == 7
                &&& r->0.ironwood.anchor == orchard_empty_root(32)
            },
        },
{
    let pczt = r->0;
    if parts.transparent is None {
        assert(pczt.transparent@.inputs.len() == 0);
        assert(pczt.transparent@.outputs.len() == 0);
    }
    if parts.sapling is None {
        assert(pczt.sapling@.spends.len() == 0);
        assert(pczt.sapling@.outputs.len() == 0);
    }
    if parts.orchard is None {
        assert(pczt.orchard@.actions.len() == 0);
    }
    if parts.ironwood is None {
        assert(pczt.ironwood@.actions.len() == 0);
    }
}

/// Parts make up a transaction just if they are of version 4 from Sapling on and before NU7, of
/// version 5 from NU5 on or of version 6 from NU6.3 on, hold an Ironwood bundle only in version 6,
/// have an Orchard bundle that lets an action pay another receiver just if NU6.3 has not been
/// reached, and spend and create notes of version 2 in the Orchard pool and of version 3 in the
/// Ironwood pool.
pub proof fn lemma_parts_accepted(parts: PcztParts, r: Option<Pczt>)
    requires
        call_ensures(Creator::build_from_parts, (parts,), r),
    ensures
        ({
            let branch = parts.consensus_branch_id;
            let restricted = branch is Nu6_3 || branch is Nu7;
            r is Some <==> {
                &&& {
                    ||| parts.version is V4 && !(branch is Sprout) && !(branch is Overwinter)
                        && !(branch is Nu7)
                    ||| parts.version is V5 && (branch is Nu5 || branch is Nu6 || branch is Nu6_1
                        || branch is Nu6_2 || restricted)
                    ||| parts.version is V6 && restricted
                }
                &&& parts.ironwood is None || parts.version is V6
                &&& parts.orchard matches Some(bundle) ==> {
                    &&& bundle.flags.cross_address_enabled == !restricted
                    &&& notes_are(bundle, NoteVersion::V2)
                }
                &&& parts.ironwood matches Some(bundle) ==> notes_are(bundle, NoteVersion::V3)
            }
        }),
{
    if let Some(bundle) = parts.orchard {
        lemma_notes_are(bundle, NoteVersion::V2);
    }
    if let Some(bundle) = parts.ironwood {
        lemma_notes_are(bundle, NoteVersion::V3);
    }
}

/// The notes of a bundle are of a version just if those of what it consists of are.
proof fn lemma_notes_are(bundle: ParsedBundle, version: NoteVersion)
    ensures
        notes_are(bundle, version) <==> bundle@.notes_of(version),
{
    if bundle@.notes_of(version) {
        assert forall|i: int| 0 <= i < bundle.actions@.len() implies (
        #[trigger] bundle.actions@[i]).spend.note_version == version
            && bundle.actions@[i].output.note_version == version by {
            assert(bundle@.actions[i].spend.note_version == version);
        }
    }
    if notes_are(bundle, version) {
        assert forall|i: int| 0 <= i < bundle@.actions.len() implies (
        #[trigger] bundle@.actions[i]).spend.note_version == version
            && bundle@.actions[i].output.note_version == version by {
            assert(bundle.actions@[i].spend.note_version == version);
        }
    }
}

/// A new transaction of version 5 has what its Creator was told, no lock time unless one was set,
/// and nothing in it: spends and outputs are enabled, and everything may be modified.
pub proof fn lemma_new_transaction(
    consensus_branch_id: u32,
    expiry_height: u32,
    coin_type: u32,
    sapling_anchor: [u8; 32],
    orchard_anchor: [u8; 32],
    fallback: u32,
    creator: Creator,
    locked: Creator,
    pczt: Pczt,
    locked_pczt: Pczt,
)
    requires
        call_ensures(
            Creator::new,
            (consensus_branch_id, expiry_height, coin_type, sapling_anchor, orchard_anchor),
            creator,
        ),
        call_ensures(Creator::with_fallback_lock_time, (creator, fallback), locked),
        call_ensures(Creator::build, (creator,), pczt),
        call_ensures(Creator::build, (locked,), locked_pczt),
    ensures
        pczt.global.tx_version == 5,
        pczt.global.version_group_id == 0x26A7_270A,
        pczt.global.consensus_branch_id == consensus_branch_id,
        pczt.global.expiry_height == expiry_height,
        pczt.global.coin_type == coin_type,
        pczt.global.fallback_lock_time is None,
        pczt.global.tx_modifiable == 0x83,
        nothing_in(pczt),
        pczt.sapling.anchor == sapling_anchor,
        pczt.orchard.anchor == orchard_anchor,
        pczt.orchard.flags == 3,
        pczt.ironwood.anchor == orchard_empty_root(32),
        pczt.ironwood.flags == 7,
        locked_pczt.global.fallback_lock_time == Some(fallback),
        locked_pczt.global.consensus_branch_id == consensus_branch_id,
        locked_pczt.global.expiry_height == expiry_height,
        locked_pczt.global.coin_type == coin_type,
        locked_pczt.sapling.anchor == sapling_anchor,
        locked_pczt.orchard.anchor == orchard_anchor,
{
    lemma_nothing_in(pczt);
}

/// A new transaction of version 6 has what its Creator was told, no lock time unless one was set,
/// and nothing in it: spends and outputs are enabled, in the Ironwood pool to other receivers too,
/// and everything may be modified.
pub proof fn lemma_new_v6_transaction(
    consensus_branch_id: u32,
    expiry_height: u32,
    coin_type: u32,
    sapling_anchor: [u8; 32],
    orchard_anchor: [u8; 32],
    ironwood_anchor: [u8; 32],
    fallback: u32,
    creator: V6Creator,
    locked: V6Creator,
    pczt: Pczt,
    locked_pczt: Pczt,
)
    requires
        call_ensures(
            Creator::new_v6,
            (
                consensus_branch_id,
                expiry_height,
                coin_type,
                sapling_anchor,
                orchard_anchor,
                ironwood_anchor,
            ),
            creator,
        ),
        call_ensures(V6Creator::with_fallback_lock_time, (creator, fallback), locked),
        call_ensures(V6Creator::build, (creator,), pczt),
        call_ensures(V6Creator::build, (locked,), locked_pczt),
    ensures
        pczt.global.tx_version == 6,
        pczt.global.version_group_id == 0xD884_B698,
        pczt.global.consensus_branch_id == consensus_branch_id,
        pczt.global.expiry_height == expiry_height,
        pczt.global.coin_type == coin_type,
        pczt.global.fallback_lock_time is None,
        pczt.global.tx_modifiable == 0x83,
        nothing_in(pczt),
        pczt.sapling.anchor == sapling_anchor,
        pczt.orchard.anchor == orchard_anchor,
        pczt.orchard.flags == 3,
        pczt.ironwood.anchor == ironwood_anchor,
        pczt.ironwood.flags == 7,
        locked_pczt.global.fallback_lock_time == Some(fallback),
        locked_pczt.global.consensus_branch_id == consensus_branch_id,
        locked_pczt.global.expiry_height == expiry_height,
        locked_pczt.global.coin_type == coin_type,
        locked_pczt.sapling.anchor == sapling_anchor,
        locked_pczt.orchard.anchor == orchard_anchor,
        locked_pczt.ironwood.anchor == ironwood_anchor,
{
    lemma_nothing_in(pczt);
}

/// A transaction the bundles of which consist of nothing has nothing in it.
proof fn lemma_nothing_in(pczt: Pczt)
    requires
        pczt.transparent@.inputs.len() == 0,
        pczt.transparent@.outputs.len() == 0,
        pczt.sapling@.spends.len() == 0,
        pczt.sapling@.outputs.len() == 0,
        pczt.sapling.value_sum == 0,
        pczt.sapling.bsk is None,
        pczt.orchard@.actions.len() == 0,
        pczt.orchard.value_sum.0 == 0,
        pczt.orchard@.zkproof is None,
        pczt.orchard.bsk is None,
        pczt.ironwood@.actions.len() == 0,
        pczt.ironwood.value_sum.0 == 0,
        pczt.ironwood@.zkproof is None,
        pczt.ironwood.bsk is None,
    ensures
        nothing_in(pczt),
{
}

/// A Creator of transactions of version 6 that is given flags and an anchor makes one whose
/// bundles have them: the lowest bit enables spends and the next one outputs, and in the Ironwood
/// bundle the third enables payments to other receivers. Nothing else changes.
pub proof fn lemma_v6_settings(
    creator: V6Creator,
    orchard_flags: Flags,
    ironwood_flags: Flags,
    ironwood_anchor: [u8; 32],
    with_orchard: V6Creator,
    with_ironwood: V6Creator,
    set: V6Creator,
    before: Pczt,
    pczt: Pczt,
)
    requires
        !orchard_flags.cross_address_enabled,
        call_ensures(V6Creator::with_orchard_flags, (creator, orchard_flags), with_orchard),
        call_ensures(V6Creator::with_ironwood_flags, (with_orchard, ironwood_flags), with_ironwood),
        call_ensures(V6Creator::with_ironwood_anchor, (with_ironwood, ironwood_anchor), set),
        call_ensures(V6Creator::build, (creator,), before),
        call_ensures(V6Creator::build, (set,), pczt),
    ensures
        pczt.orchard.flags < 4,
        (pczt.orchard.flags % 2 == 1) == orchard_flags.spends_enabled,
        (pczt.orchard.flags >= 2) == orchard_flags.outputs_enabled,
        pczt.ironwood.flags < 8,
        (pczt.ironwood.flags % 2 == 1) == ironwood_flags.spends_enabled,
        ((pczt.ironwood.flags / 2) % 2 == 1) == ironwood_flags.outputs_enabled,
        (pczt.ironwood.flags >= 4) == ironwood_flags.cross_address_enabled,
        pczt.ironwood.anchor == ironwood_anchor,
        pczt.orchard.anchor == before.orchard.anchor,
        pczt.sapling.anchor == before.sapling.anchor,
        pczt.global.expiry_height == before.global.expiry_height,
        pczt.global.fallback_lock_time == before.global.fallback_lock_time,
        pczt.global.consensus_branch_id == before.global.consensus_branch_id,
        pczt.global.coin_type == before.global.coin_type,
        pczt.global.tx_version == before.global.tx_version,
{
}

/// Whether a bundle is what another was, but for its proof and for the sign of a sum of zero.
pub open spec fn kept_but_proof(before: PcztBundle, after: PcztBundle) -> bool {
    &&& after.actions == before.actions
    &&& after.flags == before.flags
    &&& after.anchor == before.anchor
    &&& after.bsk == before.bsk
    &&& after.value_sum.0 == before.value_sum.0
    &&& after.value_sum.1 == (before.value_sum.1 && before.value_sum.0 != 0)
}

/// Whether a transaction is one of version 6 on NU6.3.
pub open spec fn is_v6_on_nu6_3(pczt: Pczt) -> bool {
    pczt.global.tx_version == 6 && pczt.global.consensus_branch_id == 0x37a5_165b
}

/// The Prover changes nothing of a transaction but the proof of the Orchard bundle: where there are
/// actions it is there, and where there are none it is what it was. It fails only on a bundle that
/// has actions or cannot be parsed.
pub proof fn lemma_orchard_proof(
    pczt: Pczt,
    prover: Prover,
    pk: &::orchard::circuit::ProvingKey,
    r: Result<Prover, OrchardError>,
    done: Pczt,
)
    requires
        call_ensures(Prover::new, (pczt,), prover),
        call_ensures(Prover::create_orchard_proof, (prover, pk), r),
        r is Ok ==> call_ensures(Prover::finish, (r->Ok_0,), done),
    ensures
        r is Ok ==> {
            &&& done.global == pczt.global
            &&& done.transparent == pczt.transparent
            &&& done.sapling == pczt.sapling
            &&& done.ironwood == pczt.ironwood
            &&& kept_but_proof(pczt.orchard, done.orchard)
            &&& pczt.orchard.actions@.len() > 0 ==> done.orchard.zkproof is Some
            &&& pczt.orchard.actions@.len() == 0 ==> (done.orchard.zkproof is Some
                <==> pczt.orchard.zkproof is Some)
        },
        r is Err ==> pczt.orchard.actions@.len() > 0 || !pczt.orchard@.parses(
            pczt.global.orchard_version(),
        ),
        r matches Err(OrchardError::Prover(_)) ==> pczt.orchard.actions@.len() > 0,
{
}

/// The Prover changes nothing of a transaction but the proof of the Ironwood bundle, and does not
/// touch a transaction that is not one of version 6 on NU6.3.
pub proof fn lemma_ironwood_proof(
    pczt: Pczt,
    prover: Prover,
    pk: &::orchard::circuit::ProvingKey,
    r: Result<Prover, OrchardError>,
    done: Pczt,
)
    requires
        call_ensures(Prover::new, (pczt,), prover),
        call_ensures(Prover::create_ironwood_proof, (prover, pk), r),
        r is Ok ==> call_ensures(Prover::finish, (r->Ok_0,), done),
    ensures
        !is_v6_on_nu6_3(pczt) ==> (r matches Err(
            OrchardError::Parser(BundleParseError::Version(e)),
        ) && (if pczt.global.tx_version != 6 {
            e == VersionError::TxVersion(pczt.global.tx_version)
        } else {
            e == VersionError::ConsensusBranch(pczt.global.consensus_branch_id)
        })),
        r is Ok ==> {
            &&& is_v6_on_nu6_3(pczt)
            &&& done.global == pczt.global
            &&& done.transparent == pczt.transparent
            &&& done.sapling == pczt.sapling
            &&& done.orchard == pczt.orchard
            &&& kept_but_proof(pczt.ironwood, done.ironwood)
            &&& pczt.ironwood.actions@.len() > 0 ==> done.ironwood.zkproof is Some
            &&& pczt.ironwood.actions@.len() == 0 ==> (done.ironwood.zkproof is Some
                <==> pczt.ironwood.zkproof is Some)
        },
        r matches Err(OrchardError::Prover(_)) ==> pczt.ironwood.actions@.len() > 0,
{
}

/// Verifying the Orchard bundle leaves a transaction as it was, but for the sign of a sum of zero; a
/// bundle that cannot be parsed is refused.
pub proof fn lemma_orchard_verified<E, F: FnOnce(&ParsedBundle) -> Result<(), VerifierError<E>>>(
    pczt: Pczt,
    verifier: Verifier,
    f: F,
    r: Result<Verifier, VerifierError<E>>,
    done: Pczt,
)
    requires
        call_ensures(Verifier::new, (pczt,), verifier),
        call_ensures(Verifier::with_orchard::<E, F>, (verifier, f), r),
        r is Ok ==> call_ensures(Verifier::finish, (r->Ok_0,), done),
    ensures
        r is Ok ==> {
            &&& done.global == pczt.global
            &&& done.transparent == pczt.transparent
            &&& done.sapling == pczt.sapling
            &&& done.ironwood == pczt.ironwood
            &&& kept_but_proof(pczt.orchard, done.orchard)
            &&& done.orchard.zkproof == pczt.orchard.zkproof
            &&& pczt.orchard@.parses(pczt.global.orchard_version())
        },
{
}

/// Verifying the Ironwood bundle leaves a transaction as it was, but for the sign of a sum of zero; a
/// transaction that is not one of version 6 on NU6.3 is refused.
pub proof fn lemma_ironwood_verified<E, F: FnOnce(&ParsedBundle) -> Result<(), VerifierError<E>>>(
    pczt: Pczt,
    verifier: Verifier,
    f: F,
    r: Result<Verifier, VerifierError<E>>,
    done: Pczt,
)
    requires
        call_ensures(Verifier::new, (pczt,), verifier),
        call_ensures(Verifier::with_ironwood::<E, F>, (verifier, f), r),
        r is Ok ==> call_ensures(Verifier::finish, (r->Ok_0,), done),
    ensures
        r is Ok ==> {
            &&& is_v6_on_nu6_3(pczt)
            &&& done.global == pczt.global
            &&& done.transparent == pczt.transparent
            &&& done.sapling == pczt.sapling
            &&& done.orchard == pczt.orchard
            &&& kept_but_proof(pczt.ironwood, done.ironwood)
            &&& done.ironwood.zkproof == pczt.ironwood.zkproof
        },
        !is_v6_on_nu6_3(pczt) ==> (r matches Err(
            VerifierError::Parse(BundleParseError::Version(_)),
        )),
{
}

/// Whether what concerns a transaction as a whole is the same but for what may be modified.
pub open spec fn same_but_modifiable(a: Pczt, b: Pczt) -> bool {
    &&& a.global.tx_version == b.global.tx_version
    &&& a.global.version_group_id == b.global.version_group_id
    &&& a.global.consensus_branch_id == b.global.consensus_branch_id
    &&& a.global.fallback_lock_time == b.global.fallback_lock_time
    &&& a.global.expiry_height == b.global.expiry_height
    &&& a.global.coin_type == b.global.coin_type
    &&& a.global.proprietary == b.global.proprietary
}

/// Signing the Orchard bundle changes no other bundle of a transaction, and nothing that concerns it as
/// a whole but what may be modified. The bundle is handed over as it is, and what comes back becomes
/// that of the transaction.
pub proof fn lemma_orchard_signed<
    E: From<BundleParseError>,
    F: FnOnce(&Pczt, &mut ParsedBundle, &mut u8) -> Result<(), E>,
>(pczt: Pczt, signer: Signer, f: F, r: Result<Signer, E>, done: Pczt)
    requires
        call_ensures(Signer::new, (pczt,), signer),
        call_ensures(Signer::sign_orchard_with::<E, F>, (signer, f), r),
        r is Ok ==> call_ensures(Signer::finish, (r->Ok_0,), done),
    ensures
        r is Ok ==> {
            &&& same_but_modifiable(pczt, done)
            &&& done.transparent == pczt.transparent
            &&& done.sapling == pczt.sapling
            &&& done.ironwood == pczt.ironwood
            &&& pczt.orchard@.parses(pczt.global.orchard_version())
            &&& exists|bundle: &mut ParsedBundle, modifiable: &mut u8, o: Result<(), E>|
                {
                    &&& #[trigger] call_ensures(f, (&pczt, bundle, modifiable), o)
                    &&& o is Ok
                    &&& bundle@.actions == pczt.orchard@.actions
                    &&& bundle@.anchor == pczt.orchard.anchor
                    &&& bundle@.bsk == pczt.orchard.bsk
                    &&& *modifiable == pczt.global.tx_modifiable
                    &&& done.global.tx_modifiable == *final(modifiable)
                    &&& hands_on(*final(bundle), done.orchard)
                }
        },
{
}

/// Signing the Ironwood bundle changes no other bundle of a transaction, and nothing that concerns it
/// as a whole but what may be modified. A transaction that is not one of version 6 on NU6.3 is refused.
pub proof fn lemma_ironwood_signed<
    E: From<BundleParseError>,
    F: FnOnce(&Pczt, &mut ParsedBundle, &mut u8) -> Result<(), E>,
>(pczt: Pczt, signer: Signer, f: F, r: Result<Signer, E>, done: Pczt)
    requires
        call_ensures(Signer::new, (pczt,), signer),
        call_ensures(Signer::sign_ironwood_with::<E, F>, (signer, f), r),
        r is Ok ==> call_ensures(Signer::finish, (r->Ok_0,), done),
    ensures
        r is Ok ==> {
            &&& is_v6_on_nu6_3(pczt)
            &&& same_but_modifiable(pczt, done)
            &&& done.transparent == pczt.transparent
            &&& done.sapling == pczt.sapling
            &&& done.orchard == pczt.orchard
            &&& exists|bundle: &mut ParsedBundle, modifiable: &mut u8, o: Result<(), E>|
                {
                    &&& #[trigger] call_ensures(f, (&pczt, bundle, modifiable), o)
                    &&& o is Ok
                    &&& bundle@.actions == pczt.ironwood@.actions
                    &&& bundle@.anchor == pczt.ironwood.anchor
                    &&& bundle@.bsk == pczt.ironwood.bsk
                    &&& *modifiable == pczt.global.tx_modifiable
                    &&& done.global.tx_modifiable == *final(modifiable)
                    &&& hands_on(*final(bundle), done.ironwood)
                }
        },
{
}

/// Signing the Sapling or the transparent bundle changes no other bundle of a transaction, and nothing
/// that concerns it as a whole but what may be modified.
pub proof fn lemma_other_bundles_signed<
    E: From<SaplingParseError>,
    T: From<zcash_transparent::pczt::ParseError>,
    F: FnOnce(&Pczt, &mut SaplingPcztBundle, &mut u8) -> Result<(), E>,
    G: FnOnce(&Pczt, &mut TransparentPcztBundle, &mut u8) -> Result<(), T>,
>(
    pczt: Pczt,
    signer: Signer,
    f: F,
    g: G,
    r: Result<Signer, E>,
    q: Result<Signer, T>,
    sapling_done: Pczt,
    transparent_done: Pczt,
)
    requires
        call_ensures(Signer::new, (pczt,), signer),
        call_ensures(Signer::sign_sapling_with::<E, F>, (signer, f), r),
        call_ensures(Signer::sign_transparent_with::<T, G>, (signer, g), q),
        r is Ok ==> call_ensures(Signer::finish, (r->Ok_0,), sapling_done),
        q is Ok ==> call_ensures(Signer::finish, (q->Ok_0,), transparent_done),
    ensures
        r is Ok ==> {
            &&& same_but_modifiable(pczt, sapling_done)
            &&& sapling_done.transparent == pczt.transparent
            &&& sapling_done.orchard == pczt.orchard
            &&& sapling_done.ironwood == pczt.ironwood
        },
        q is Ok ==> {
            &&& same_but_modifiable(pczt, transparent_done)
            &&& transparent_done.sapling == pczt.sapling
            &&& transparent_done.orchard == pczt.orchard
            &&& transparent_done.ironwood == pczt.ironwood
        },
{
}

/// A bundle that is accepted has signatures the second halves of which are canonical scalars, and was
/// not verified with the key of a circuit that does not constrain the receivers of actions where its
/// flags ask for that. What is refused is refused as an invalid proof.
pub proof fn lemma_accepted_bundle(
    bundle: &WireBundle,
    version: BundleVersion,
    key: Option<&::orchard::circuit::VerifyingKey>,
    circuit: CircuitVersion,
    sighash: [u8; 32],
    r: Result<(), ExtractorError>,
)
    requires
        call_ensures(verify_bundle, (bundle, version, key, circuit, sighash), r),
    ensures
        r is Ok ==> {
            &&& pallas_scalar_canonical(bundle@.binding_signature@.subrange(32, 64))
            &&& forall|i: int|
                0 <= i < bundle@.actions.len() ==> pallas_scalar_canonical(
                    (#[trigger] bundle@.actions[i]).authorization@.subrange(32, 64),
                )
            &&& key is None ==> bundle.flags.cross_address_enabled || circuit is PostNu6_3
        },
        r is Err ==> r->Err_0 is InvalidProof,
{
}

/// A Creator that is given Orchard flags makes a transaction whose Orchard bundle has them, by the rules
/// of its branch, and changes nothing else.
pub proof fn lemma_orchard_settings(
    creator: Creator,
    flags: Flags,
    set: Creator,
    before: Pczt,
    pczt: Pczt,
)
    requires
        call_ensures(Creator::with_orchard_flags, (creator, flags), set),
        call_ensures(Creator::build, (creator,), before),
        call_ensures(Creator::build, (set,), pczt),
    ensures
        pczt.orchard.flags < 4,
        (pczt.orchard.flags % 2 == 1) == flags.spends_enabled,
        (pczt.orchard.flags >= 2) == flags.outputs_enabled,
        pczt.orchard.anchor == before.orchard.anchor,
        pczt.sapling.anchor == before.sapling.anchor,
        pczt.ironwood.anchor == before.ironwood.anchor,
        pczt.ironwood.flags == before.ironwood.flags,
        pczt.global.expiry_height == before.global.expiry_height,
        pczt.global.fallback_lock_time == before.global.fallback_lock_time,
        pczt.global.consensus_branch_id == before.global.consensus_branch_id,
        pczt.global.coin_type == before.global.coin_type,
        pczt.global.tx_version == before.global.tx_version,
{
}

/// A bundle is parsed just if all its notes are of the version that belongs to its pool, all its actions
/// are what they should be, its flags have no bits that mean nothing, and its anchor and its key are
/// canonical. What is parsed has the actions, the anchor, the proof and the key of the bundle. Of several
/// things that are wrong, the versions of the notes are reported first, then the actions, then the flags,
/// then the anchor, and the key last.
pub proof fn lemma_bundle_parsed(
    bundle: PcztBundle,
    version: BundleVersion,
    r: Result<ParsedBundle, BundleParseError>,
)
    requires
        call_ensures(PcztBundle::into_parsed_orchard, (bundle, version), r),
    ensures
        ({
            let of_pool = if version is IronwoodV3 {
                NoteVersion::V3
            } else {
                NoteVersion::V2
            };
            let notes = forall|i: int|
                0 <= i < bundle.actions@.len() ==> (
                #[trigger] bundle.actions@[i]).spend.note_version == of_pool
                    && bundle.actions@[i].output.note_version == of_pool;
            let actions = forall|i: int|
                0 <= i < bundle.actions@.len() ==> (#[trigger] bundle.actions@[i])@.parses();
            let flags = bundle.flags < (if version is IronwoodV3 {
                8int
            } else {
                4
            });
            let anchor = pallas_base_canonical(bundle.anchor@);
            let key = bundle.bsk is None || pallas_scalar_canonical(bundle.bsk->0@);
            match r {
                Ok(parsed) => {
                    &&& notes && actions && flags && anchor && key
                    &&& parsed.actions == bundle.actions
                    &&& parsed.anchor == bundle.anchor
                    &&& parsed.zkproof == bundle.zkproof
                    &&& parsed.bsk == bundle.bsk
                    &&& parsed.value_sum.0 == bundle.value_sum.0
                    &&& parsed.flags.spends_enabled == (bundle.flags % 2 == 1)
                    &&& parsed.flags.outputs_enabled == ((bundle.flags / 2) % 2 == 1)
                    &&& parsed.flags.cross_address_enabled == (match version {
                        BundleVersion::IronwoodV3 => bundle.flags >= 4,
                        BundleVersion::OrchardV3 => false,
                        _ => true,
                    })
                },
                Err(BundleParseError::NoteVersion) => !notes,
                Err(BundleParseError::Part(_)) => notes && !actions,
                Err(BundleParseError::UnexpectedFlagBitsSet) => notes && actions && !flags,
                Err(BundleParseError::InvalidAnchor) => notes && actions && flags && !anchor,
                Err(BundleParseError::InvalidBindingKey) => notes && actions && flags && anchor
                    && !key,
                Err(BundleParseError::Version(_)) => false,
            }
        }),
{
    let of_pool = version.plaintext_version();
    assert(bundle@.notes_of(of_pool) <==> forall|i: int|
        0 <= i < bundle.actions@.len() ==> (#[trigger] bundle.actions@[i]).spend.note_version
            == of_pool && bundle.actions@[i].output.note_version == of_pool) by {
        if bundle@.notes_of(of_pool) {
            assert forall|i: int| 0 <= i < bundle.actions@.len() implies (
            #[trigger] bundle.actions@[i]).spend.note_version == of_pool
                && bundle.actions@[i].output.note_version == of_pool by {
                assert(bundle@.actions[i].spend.note_version == of_pool);
            }
        }
        if forall|i: int|
            0 <= i < bundle.actions@.len() ==> (#[trigger] bundle.actions@[i]).spend.note_version
                == of_pool && bundle.actions@[i].output.note_version == of_pool {
            assert forall|i: int| 0 <= i < bundle@.actions.len() implies (
            #[trigger] bundle@.actions[i]).spend.note_version == of_pool
                && bundle@.actions[i].output.note_version == of_pool by {
                assert(bundle.actions@[i].spend.note_version == of_pool);
            }
        }
    }
    assert(bundle@.actions_parse() <==> forall|i: int|
        0 <= i < bundle.actions@.len() ==> (#[trigger] bundle.actions@[i])@.parses()) by {
        if bundle@.actions_parse() {
            assert forall|i: int| 0 <= i < bundle.actions@.len() implies (
            #[trigger] bundle.actions@[i])@.parses() by {
                assert(bundle@.actions[i].parses());
            }
        }
        if forall|i: int| 0 <= i < bundle.actions@.len() ==> (#[trigger] bundle.actions@[i])@.parses() {
            assert forall|i: int| 0 <= i < bundle@.actions.len() implies (
            #[trigger] bundle@.actions[i]).parses() by {
                assert(bundle.actions@[i]@.parses());
            }
        }
    }
}

/// A Sapling bundle that is parsed has only derivations all steps of which are hardened, only keys that
/// are such, a canonical anchor and a canonical key; a key of a spend is reported only if it is none.
pub proof fn lemma_sapling_parsed(bundle: SaplingPcztBundle, r: Result<(), SaplingParseError>)
    requires
        call_ensures(SaplingPcztBundle::check_parses, (&bundle,), r),
    ensures
        match r {
            Ok(_) => {
                &&& jubjub_base_canonical(bundle.anchor@)
                &&& bundle.bsk is None || jubjub_scalar_canonical(bundle.bsk->0@)
                &&& forall|i: int|
                    0 <= i < bundle@.spends.len() ==> {
                        &&& (#[trigger] bundle@.spends[i]).zip32_derivation matches Some(d)
                            ==> d.hardened()
                        &&& bundle@.spends[i].proof_generation_key matches Some((ak, _))
                            ==> jubjub_point_encoded(ak@)
                        &&& bundle@.spends[i].dummy_ask matches Some(ask)
                            ==> jubjub_scalar_canonical(ask@)
                    }
                &&& forall|i: int|
                    0 <= i < bundle@.outputs.len() ==> (#[trigger] bundle@.outputs[i]).parses()
            },
            Err(SaplingParseError::InvalidProofGenerationKey) => exists|i: int|
                0 <= i < bundle@.spends.len() && ((
                #[trigger] bundle@.spends[i]).proof_generation_key matches Some((ak, _))
                    && !jubjub_point_encoded(ak@)),
            Err(SaplingParseError::InvalidDummySpendAuthorizingKey) => exists|i: int|
                0 <= i < bundle@.spends.len() && ((#[trigger] bundle@.spends[i]).dummy_ask matches Some(
                    ask,
                ) && !jubjub_scalar_canonical(ask@)),
            Err(SaplingParseError::Part(_)) => true,
        },
{
    lemma_first_fault_is(bundle@.spends);
}

/// What is wrong with the first spend with which anything is wrong is wrong with a spend.
proof fn lemma_first_fault_is(spends: Seq<SaplingSpendView>)
    ensures
        match first_fault(spends) {
            None => forall|i: int| 0 <= i < spends.len() ==> (#[trigger] spends[i]).fault() is None,
            Some(fault) => exists|i: int|
                0 <= i < spends.len() && (#[trigger] spends[i]).fault() == Some(fault),
        },
    decreases spends.len(),
{
    if spends.len() > 0 {
        let first = spends.drop_last();
        lemma_first_fault_is(first);
        assert(spends[spends.len() - 1] == spends.last());
        match first_fault(first) {
            None => {
                assert forall|i: int| 0 <= i < first.len() implies (
                #[trigger] spends[i]).fault() is None by {
                    assert(first[i] == spends[i]);
                }
            },
            Some(fault) => {
                let i = choose|i: int|
                    0 <= i < first.len() && (#[trigger] first[i]).fault() == Some(fault);
                assert(spends[i].fault() == Some(fault));
            },
        }
    }
}

} // verus!
