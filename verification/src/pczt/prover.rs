//! The Prover role: it adds the proofs of the Orchard-shaped bundles.

use vstd::prelude::*;

use crate::consensus::is_branch_code;
use crate::pool::BundleVersion;

use super::common::ensure_v6_consensus_branch;
use super::common::orchard_bundle_format;
use super::orchard::bytes_view;
use super::orchard::sign_sum;
use super::orchard::ActionView;
use super::orchard::BundleParseError;
use super::orchard::PcztBundle;
use super::Pczt;

verus! {

/// What proofs are created with.
#[verifier::external_type_specification]
#[verifier::external_body]
pub struct ExProvingKey(::orchard::circuit::ProvingKey);

/// Why a proof could not be created.
#[verifier::external_type_specification]
#[verifier::external_body]
pub struct ExProverError(::orchard::pczt::ProverError);

/// The Prover.
pub struct Prover {
    pczt: Pczt,
}

/// Why the proof of an Orchard-shaped bundle could not be added.
#[derive(Debug)]
pub enum OrchardError {
    /// The bundle cannot be parsed.
    Parser(BundleParseError),
    /// The proof could not be created.
    Prover(::orchard::pczt::ProverError),
}

/// Whether an action has all that a proof is made from.
pub open spec fn provable(action: ActionView) -> bool {
    &&& action.spend.recipient is Some
    &&& action.spend.value is Some
    &&& action.spend.rho is Some
    &&& action.spend.rseed is Some
    &&& action.spend.fvk is Some
    &&& action.spend.witness is Some
    &&& action.spend.alpha is Some
    &&& action.output.recipient is Some
    &&& action.output.value is Some
    &&& action.output.rseed is Some
    &&& action.rcv is Some
}

/// Whether a proof may be what the proof of a bundle has become: without actions there is nothing
/// to prove and it is what it was, and otherwise there is one and no action lacks anything that it
/// is made from.
pub open spec fn proof_added(bundle: PcztBundle, proof: Option<Vec<u8>>) -> bool {
    if bundle.actions@.len() == 0 {
        bytes_view(proof) == bytes_view(bundle.zkproof)
    } else {
        &&& proof is Some
        &&& forall|i: int|
            0 <= i < bundle@.actions.len() ==> provable(#[trigger] bundle@.actions[i])
    }
}

/// Creates the proof of a bundle, the actions of which have been parsed.
///
/// This is `orchard::pczt::Bundle::create_proof` with the randomness of the operating system, on
/// the bundle that `orchard::pczt::Bundle::parse` makes of its parts: it makes one of any bundle
/// that can be parsed, with the actions that its own have been parsed to. Without actions there is
/// nothing to prove and the proof stays as it was. With actions there is a proof where this
/// succeeds, which it does only if no action lacks anything that a proof is made from. Whether it
/// then succeeds, and with which proof, is not said: it depends on the notes that the actions
/// spend and create, on the key and on the randomness.
#[verifier::external_body]
fn create_proof(
    actions: Vec<::orchard::pczt::Action>,
    bundle: &PcztBundle,
    version: BundleVersion,
    pk: &::orchard::circuit::ProvingKey,
) -> (r: Result<Option<Vec<u8>>, ::orchard::pczt::ProverError>)
    requires
        bundle@.parses(version),
        bundle.actions_parsed(actions@),
    ensures
        bundle.actions@.len() == 0 ==> r is Ok,
        r matches Ok(proof) ==> proof_added(*bundle, proof),
{
    let version = match version {
        BundleVersion::OrchardInsecureV1 => ::orchard::bundle::BundleVersion::orchard_insecure_v1(),
        BundleVersion::OrchardV2 => ::orchard::bundle::BundleVersion::orchard_v2(),
        BundleVersion::OrchardV3 => ::orchard::bundle::BundleVersion::orchard_v3(),
        BundleVersion::IronwoodV3 => ::orchard::bundle::BundleVersion::ironwood_v3(),
    };
    let mut parsed = ::orchard::pczt::Bundle::parse(
        actions, bundle.flags, version, bundle.value_sum, bundle.anchor, bundle.zkproof.clone(),
        bundle.bsk,
    ).unwrap();
    parsed.create_proof(pk, rand::rand_core::UnwrapErr(rand::rngs::SysRng))?;
    Ok(parsed.zkproof().as_ref().map(|proof| proof.as_ref().to_vec()))
}

/// Whether the prover, given a bundle of a version with its own actions and a key, may have come
/// to an outcome.
pub closed spec fn proof_created(
    bundle: PcztBundle,
    version: BundleVersion,
    pk: &::orchard::circuit::ProvingKey,
    outcome: Result<Option<Vec<u8>>, ::orchard::pczt::ProverError>,
) -> bool {
    exists|actions: Vec<::orchard::pczt::Action>|
        bundle.actions_parsed(actions@) && #[trigger] call_ensures(
            create_proof,
            (actions, &bundle, version, pk),
            outcome,
        )
}

/// A bundle with another proof, as it comes out of the Prover.
pub open spec fn with_proof(bundle: PcztBundle, proof: Option<Vec<u8>>) -> PcztBundle {
    PcztBundle { zkproof: proof, ..bundle.passed_on() }
}

/// What becomes of a bundle by what the prover came to.
pub open spec fn proof_outcome(
    bundle: PcztBundle,
    created: Result<Option<Vec<u8>>, ::orchard::pczt::ProverError>,
) -> Result<PcztBundle, OrchardError> {
    match created {
        Ok(proof) => Ok(with_proof(bundle, proof)),
        Err(e) => Err(OrchardError::Prover(e)),
    }
}

/// Adds the proof that was created, if it was.
pub fn add_proof(
    bundle: PcztBundle,
    created: Result<Option<Vec<u8>>, ::orchard::pczt::ProverError>,
) -> (r: Result<PcztBundle, OrchardError>)
    ensures
        r == proof_outcome(bundle, created),
{
    match created {
        Ok(zkproof) => {
            let value_sum = sign_sum(bundle.value_sum);
            Ok(PcztBundle { zkproof, value_sum, ..bundle })
        },
        Err(e) => Err(OrchardError::Prover(e)),
    }
}

/// Whether a bundle may come to be proved like this: one that cannot be parsed is refused, and of
/// any other the prover decides.
pub open spec fn proved(
    bundle: PcztBundle,
    version: BundleVersion,
    pk: &::orchard::circuit::ProvingKey,
    r: Result<PcztBundle, OrchardError>,
) -> bool {
    if bundle@.parses(version) {
        &&& exists|created: Result<Option<Vec<u8>>, ::orchard::pczt::ProverError>| #[trigger]
            proof_created(bundle, version, pk, created) && r == proof_outcome(bundle, created)
        &&& match r {
            Ok(with) => proof_added(bundle, with.zkproof),
            Err(_) => bundle.actions@.len() > 0,
        }
    } else {
        r matches Err(OrchardError::Parser(failure)) && failure.explains(bundle@, version)
    }
}

/// Parses a bundle and adds its proof.
fn prove(bundle: PcztBundle, version: BundleVersion, pk: &::orchard::circuit::ProvingKey) -> (r:
    Result<PcztBundle, OrchardError>)
    ensures
        proved(bundle, version, pk, r),
{
    match bundle.parse_flags(version) {
        Ok(_) => {},
        Err(failure) => {
            return Err(OrchardError::Parser(failure));
        },
    }
    let actions = match bundle.parse_actions() {
        Ok(actions) => actions,
        Err(failure) => {
            return Err(OrchardError::Parser(BundleParseError::Part(failure)));
        },
    };
    let create = create_proof;
    let created = create(actions, &bundle, version, pk);
    assert(proof_created(bundle, version, pk, created));
    add_proof(bundle, created)
}

impl Prover {
    /// The transaction.
    pub closed spec fn pczt(self) -> Pczt {
        self.pczt
    }

    /// The Prover for a transaction.
    pub fn new(pczt: Pczt) -> (r: Prover)
        ensures
            r.pczt() == pczt,
    {
        Prover { pczt }
    }

    /// Adds the proof of the Orchard bundle. Nothing else of the transaction changes, but that
    /// the sum of the bundle is not negative where it is zero. A bundle without actions needs no
    /// proof.
    pub fn create_orchard_proof(self, pk: &::orchard::circuit::ProvingKey) -> (r: Result<
        Prover,
        OrchardError,
    >)
        requires
            is_branch_code(self.pczt().global.consensus_branch_id),
        ensures
            match r {
                Ok(prover) => {
                    &&& prover.pczt() == (Pczt { orchard: prover.pczt().orchard, ..self.pczt() })
                    &&& proved(
                        self.pczt().orchard,
                        self.pczt().global.orchard_version(),
                        pk,
                        Ok(prover.pczt().orchard),
                    )
                },
                Err(e) => proved(
                    self.pczt().orchard,
                    self.pczt().global.orchard_version(),
                    pk,
                    Err(e),
                ),
            },
    {
        let Pczt { global, transparent, sapling, orchard, ironwood } = self.pczt;
        let version = orchard_bundle_format(&global);
        match prove(orchard, version, pk) {
            Ok(orchard) => Ok(
                Prover { pczt: Pczt { global, transparent, sapling, orchard, ironwood } },
            ),
            Err(e) => Err(e),
        }
    }

    /// Adds the proof of the Ironwood bundle. Nothing else of the transaction changes, but that
    /// the sum of the bundle is not negative where it is zero. A bundle without actions needs no
    /// proof. Where the transaction is not one of version 6 on NU6.3, no proof is created.
    pub fn create_ironwood_proof(self, pk: &::orchard::circuit::ProvingKey) -> (r: Result<
        Prover,
        OrchardError,
    >)
        ensures
            if self.pczt().global.v6_error() is Some {
                r matches Err(OrchardError::Parser(BundleParseError::Version(e))) && Some(e)
                    == self.pczt().global.v6_error()
            } else {
                match r {
                    Ok(prover) => {
                        &&& prover.pczt() == (Pczt {
                            ironwood: prover.pczt().ironwood,
                            ..self.pczt()
                        })
                        &&& proved(
                            self.pczt().ironwood,
                            BundleVersion::IronwoodV3,
                            pk,
                            Ok(prover.pczt().ironwood),
                        )
                    },
                    Err(e) => proved(self.pczt().ironwood, BundleVersion::IronwoodV3, pk, Err(e)),
                }
            },
    {
        let Pczt { global, transparent, sapling, orchard, ironwood } = self.pczt;
        match ensure_v6_consensus_branch(&global) {
            Ok(_) => {},
            Err(failure) => {
                return Err(OrchardError::Parser(BundleParseError::Version(failure)));
            },
        }
        match prove(ironwood, BundleVersion::IronwoodV3, pk) {
            Ok(ironwood) => Ok(
                Prover { pczt: Pczt { global, transparent, sapling, orchard, ironwood } },
            ),
            Err(e) => Err(e),
        }
    }

    /// The transaction as it is now.
    pub fn finish(self) -> (r: Pczt)
        ensures
            r == self.pczt(),
    {
        self.pczt
    }
}

} // verus!
