//! The Transaction Extractor role: before it hands out a transaction it checks the proofs and the
//! signatures of the Orchard-shaped bundles.

use nonempty::NonEmpty;
use orchard::bundle::Authorized as OrchardAuthorized;
use orchard::bundle::BundleVersion as OrchardBundleVersion;
use orchard::bundle::Flags as OrchardFlags;
use orchard::Anchor as OrchardAnchor;
use orchard::Bundle as OrchardBundle;
use orchard::Proof as OrchardProof;
use rand::rand_core::UnwrapErr;
use rand::rngs::SysRng;
use vstd::prelude::*;

use crate::components::orchard::action_from_parts;
use crate::components::orchard::WireBundle;
use crate::components::orchard::WireView;
use crate::field::pallas_scalar_canonical;
use crate::pool::BundleVersion;
use crate::pool::BundleVersion::IronwoodV3;
use crate::pool::BundleVersion::OrchardInsecureV1;
use crate::pool::BundleVersion::OrchardV2;
use crate::pool::BundleVersion::OrchardV3;

verus! {

/// What proofs are verified with.
#[verifier::external_type_specification]
#[verifier::external_body]
pub struct ExVerifyingKey(::orchard::circuit::VerifyingKey);

/// Proofs and signatures that are verified together.
#[verifier::external_type_specification]
#[verifier::external_body]
pub struct ExBatchValidator<'a>(::orchard::bundle::BatchValidator<'a>);

/// Why a bundle could not be added to a validator.
#[verifier::external_type_specification]
#[verifier::external_body]
pub struct ExBatchError(::orchard::bundle::BatchError);

/// Why a bundle could not be extracted.
#[verifier::external_type_specification]
#[verifier::external_body]
pub struct ExTxExtractorError(::orchard::pczt::TxExtractorError);

/// The versions of the circuit that proofs are made for.
#[derive(Clone, Copy, Debug, PartialEq, Eq, Structural)]
pub enum CircuitVersion {
    /// The circuit before NU6.2.
    InsecurePreNu6_2,
    /// The circuit from NU6.2 until NU6.3.
    FixedPostNu6_2,
    /// The circuit from NU6.3 on.
    PostNu6_3,
}

/// Why an Orchard-shaped bundle cannot be handed out.
#[derive(Debug)]
pub enum OrchardError {
    /// The bundle could not be extracted.
    Extract(::orchard::pczt::TxExtractorError),
    /// The proof or a signature is not valid.
    InvalidProof,
}

/// Builds the key that proofs of a circuit are verified with.
///
/// This is `orchard::circuit::VerifyingKey::build`. Nothing is said of the key, which can only be
/// used.
#[verifier::external_body]
fn build_verifying_key(circuit_version: CircuitVersion) -> (r: ::orchard::circuit::VerifyingKey) {
    ::orchard::circuit::VerifyingKey::build(
        match circuit_version {
            CircuitVersion::InsecurePreNu6_2 =>
                ::orchard::circuit::OrchardCircuitVersion::InsecurePreNu6_2,
            CircuitVersion::FixedPostNu6_2 =>
                ::orchard::circuit::OrchardCircuitVersion::FixedPostNu6_2,
            CircuitVersion::PostNu6_3 => ::orchard::circuit::OrchardCircuitVersion::PostNu6_3,
        })
}

/// A validator to which nothing has been added.
///
/// This is `orchard::bundle::BatchValidator::new`. Nothing is said of the validator, which can
/// only be used.
#[verifier::external_body]
fn new_validator<'a>(vk: &'a ::orchard::circuit::VerifyingKey) -> (r:
    ::orchard::bundle::BatchValidator<'a>) {
    ::orchard::bundle::BatchValidator::new(vk)
}

/// Whether a signature may be one as far as its encoding goes: its second half is the canonical
/// encoding of a scalar of Pallas.
pub open spec fn signature_encoded(signature: [u8; 64]) -> bool {
    pallas_scalar_canonical(signature@.subrange(32, 64))
}

/// Whether all signatures of a bundle may be such as far as their encoding goes.
pub open spec fn signatures_encoded(bundle: WireView) -> bool {
    &&& forall|i: int|
        0 <= i < bundle.actions.len() ==> signature_encoded(
            (#[trigger] bundle.actions[i]).authorization,
        )
    &&& signature_encoded(bundle.binding_signature)
}

/// Whether a circuit constrains actions to send to the receivers of the notes they spend, where
/// the flags of a bundle ask for it.
///
/// This is `orchard::circuit::OrchardCircuitVersion::supports_cross_address_restriction`: the
/// circuit does so from NU6.3 on.
#[verifier::external_body]
fn supports_cross_address_restriction(circuit_version: CircuitVersion) -> (r: bool)
    ensures
        r == (circuit_version is PostNu6_3),
{
    let circuit_version = match circuit_version {
        CircuitVersion::InsecurePreNu6_2 =>
            ::orchard::circuit::OrchardCircuitVersion::InsecurePreNu6_2,
        CircuitVersion::FixedPostNu6_2 => ::orchard::circuit::OrchardCircuitVersion::FixedPostNu6_2,
        CircuitVersion::PostNu6_3 => ::orchard::circuit::OrchardCircuitVersion::PostNu6_3,
    };
    circuit_version.supports_cross_address_restriction()
}

/// Adds a bundle to a validator, unless the key cannot verify what its flags ask for, and has the
/// validator say whether all that has been added is valid. The actions are those of the bundle,
/// without their signatures.
///
/// This is `orchard::bundle::BatchValidator::add_bundle`, on the bundle that
/// `orchard::Bundle::try_from_parts` makes of its parts, and then
/// `orchard::bundle::BatchValidator::validate` with the randomness of the operating system. A
/// bundle is refused only if its flags disable cross-address transfers; whether it is then depends
/// on the key of the validator, of which nothing is known here. Whatever the randomness, nothing
/// is found valid that holds a signature whose second half is not the canonical encoding of a
/// scalar of Pallas. Otherwise what is found depends on the randomness and on the key, and is not
/// said.
#[verifier::external_body]
fn validate_bundle(
    validator: ::orchard::bundle::BatchValidator<'_>,
    actions: Vec<::orchard::Action<()>>,
    bundle: &WireBundle,
    flags: u8,
    version: BundleVersion,
    sighash: &[u8; 32],
) -> (r: Result<bool, ::orchard::bundle::BatchError>)
    requires
        bundle@.valid(version),
        bundle.flags.representable(version),
        flags == bundle.flags.byte(version),
        actions@.len() == bundle.actions@.len(),
    ensures
        r is Err ==> !bundle.flags.cross_address_enabled,
        r matches Ok(valid) ==> (valid ==> signatures_encoded(bundle@)),
{
    let version = match version {
        OrchardInsecureV1 => OrchardBundleVersion::orchard_insecure_v1(),
        OrchardV2 => OrchardBundleVersion::orchard_v2(),
        OrchardV3 => OrchardBundleVersion::orchard_v3(),
        IronwoodV3 => OrchardBundleVersion::ironwood_v3(),
    };
    let parsed = OrchardBundle::try_from_parts(
        NonEmpty::from_vec(actions.into_iter().zip(&bundle.actions).map(|(a, w)| a.map(|_| w.authorization.into())).collect()).unwrap(),
        OrchardFlags::from_byte(flags, version).unwrap(), bundle.value_balance,
        OrchardAnchor::from_bytes(bundle.anchor).unwrap(),
        OrchardAuthorized::from_parts(OrchardProof::new(bundle.authorization.proof.clone()), bundle.authorization.binding_signature.into()),
        version).unwrap();
    let mut validator = validator;
    validator.add_bundle(&parsed, *sighash).map(|()| validator.validate(UnwrapErr(SysRng)))
}

/// What is reported of a bundle that was or was not added to a validator, which did or did not
/// find it valid.
pub fn verdict(added: bool, valid: bool) -> (r: Result<(), OrchardError>)
    ensures
        r is Ok <==> added && valid,
        r matches Err(e) ==> e is InvalidProof,
{
    if added && valid {
        Ok(())
    } else {
        Err(OrchardError::InvalidProof)
    }
}

/// Whether the validator, made for a key and given a bundle of a version with its own actions, its
/// own flags and the hash that its signatures are over, may have come to accept it or not.
pub closed spec fn validated(
    bundle: &WireBundle,
    bundle_version: BundleVersion,
    vk: &::orchard::circuit::VerifyingKey,
    sighash: [u8; 32],
    accepted: bool,
) -> bool {
    exists|
        validator: ::orchard::bundle::BatchValidator<'_>,
        actions: Vec<::orchard::Action<()>>,
        outcome: Result<bool, ::orchard::bundle::BatchError>,
    | {
        &&& #[trigger] call_ensures(
            validate_bundle,
            (
                validator,
                actions,
                bundle,
                bundle.flags.byte(bundle_version),
                bundle_version,
                &sighash,
            ),
            outcome,
        )
        &&& call_ensures(new_validator, (vk,), validator)
        &&& actions@.len() == bundle.actions@.len()
        &&& forall|i: int|
            0 <= i < actions@.len() ==> call_ensures(
                action_from_parts,
                (&bundle.actions@[i],),
                Some(#[trigger] actions@[i]),
            )
        &&& accepted <==> outcome == Ok::<bool, ::orchard::bundle::BatchError>(true)
    }
}

/// Whether a key may be the one that is built for a circuit.
pub closed spec fn key_built(
    circuit_version: CircuitVersion,
    vk: ::orchard::circuit::VerifyingKey,
) -> bool {
    call_ensures(build_verifying_key, (circuit_version,), vk)
}

/// Whether a bundle may come to be accepted or not: the validator decides with the given key if
/// there is one, and else with the key of the circuit, except that such a key does not verify a
/// bundle whose flags disable cross-address transfers unless the circuit constrains them.
pub open spec fn verified(
    bundle: &WireBundle,
    bundle_version: BundleVersion,
    orchard_vk: Option<&::orchard::circuit::VerifyingKey>,
    circuit_version: CircuitVersion,
    sighash: [u8; 32],
    accepted: bool,
) -> bool {
    match orchard_vk {
        Some(vk) => validated(bundle, bundle_version, vk, sighash, accepted),
        None => if bundle.flags.cross_address_enabled || circuit_version is PostNu6_3 {
            exists|vk: ::orchard::circuit::VerifyingKey| #[trigger]
                key_built(circuit_version, vk) && validated(
                    bundle,
                    bundle_version,
                    &vk,
                    sighash,
                    accepted,
                )
        } else {
            !accepted
        },
    }
}

/// Verifies the proof and the signatures of a bundle, with the given key if there is one and else
/// with that of the given circuit. A bundle is accepted only if the validator accepts it, so none
/// of its signatures is then ill-encoded. One whose flags disable cross-address transfers is not
/// accepted with the key of a circuit that does not constrain them.
pub fn verify_bundle(
    bundle: &WireBundle,
    bundle_version: BundleVersion,
    orchard_vk: Option<&::orchard::circuit::VerifyingKey>,
    circuit_version: CircuitVersion,
    sighash: [u8; 32],
) -> (r: Result<(), OrchardError>)
    requires
        bundle@.valid(bundle_version),
        bundle.flags.representable(bundle_version),
    ensures
        r matches Err(e) ==> e is InvalidProof,
        verified(bundle, bundle_version, orchard_vk, circuit_version, sighash, r is Ok),
        r is Ok ==> signatures_encoded(bundle@),
{
    match orchard_vk {
        Some(vk) => verify_bundle_with_key(bundle, bundle_version, vk, sighash),
        None => {
            if !bundle.flags.cross_address_enabled && !supports_cross_address_restriction(
                circuit_version,
            ) {
                return verdict(false, false);
            }
            let build = build_verifying_key;
            let vk = build(circuit_version);
            assert(key_built(circuit_version, vk));
            verify_bundle_with_key(bundle, bundle_version, &vk, sighash)
        },
    }
}

/// Verifies a bundle that may not be one of the given version: then there is nothing to verify.
pub fn verify_any_bundle(
    bundle: &WireBundle,
    bundle_version: BundleVersion,
    orchard_vk: Option<&::orchard::circuit::VerifyingKey>,
    circuit_version: CircuitVersion,
    sighash: [u8; 32],
) -> (r: Option<Result<(), OrchardError>>)
    ensures
        r is Some <==> bundle@.valid(bundle_version) && bundle.flags.representable(bundle_version),
        r matches Some(verdict) ==> verified(
            bundle,
            bundle_version,
            orchard_vk,
            circuit_version,
            sighash,
            verdict is Ok,
        ),
        r matches Some(Err(e)) ==> e is InvalidProof,
        r matches Some(Ok(_)) ==> signatures_encoded(bundle@),
{
    if bundle.is_valid(bundle_version) && bundle.flags.to_byte(bundle_version).is_some() {
        Some(verify_bundle(bundle, bundle_version, orchard_vk, circuit_version, sighash))
    } else {
        None
    }
}

/// Verifies the proof and the signatures of a bundle with the given key.
fn verify_bundle_with_key(
    bundle: &WireBundle,
    bundle_version: BundleVersion,
    vk: &::orchard::circuit::VerifyingKey,
    sighash: [u8; 32],
) -> (r: Result<(), OrchardError>)
    requires
        bundle@.valid(bundle_version),
        bundle.flags.representable(bundle_version),
    ensures
        r matches Err(e) ==> e is InvalidProof,
        validated(bundle, bundle_version, vk, sighash, r is Ok),
        r is Ok ==> signatures_encoded(bundle@),
{
    let mut actions: Vec<::orchard::Action<()>> = Vec::new();
    let mut i: usize = 0;
    while i < bundle.actions.len()
        invariant
            i <= bundle.actions@.len(),
            actions@.len() == i,
            forall|j: int|
                0 <= j < i ==> call_ensures(
                    action_from_parts,
                    (&bundle.actions@[j],),
                    Some(#[trigger] actions@[j]),
                ),
            bundle@.valid(bundle_version),
        decreases bundle.actions@.len() - i,
    {
        assert(bundle@.actions[i as int].valid());
        let make = action_from_parts;
        match make(&bundle.actions[i]) {
            Some(action) => {
                actions.push(action);
            },
            None => {
                assert(false);
                return verdict(false, false);
            },
        }
        i = i + 1;
    }
    let flags: u8 = match bundle.flags.to_byte(bundle_version) {
        Some(flags) => flags,
        None => {
            assert(false);
            0
        },
    };
    let validator = new_validator;
    let validate = validate_bundle;
    match validate(validator(vk), actions, bundle, flags, bundle_version, &sighash) {
        Ok(valid) => verdict(true, valid),
        Err(_) => verdict(false, false),
    }
}

} // verus!
