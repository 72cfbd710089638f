//! The low-level Signer role: it hands each bundle to whoever signs it.

use vstd::prelude::*;

use crate::consensus::is_branch_code;
use crate::pool::BundleVersion;

use super::common::ensure_v6_consensus_branch;
use super::common::orchard_bundle_format;
use super::common::Global;
use super::orchard::BundleParseError;
use super::orchard::ParsedBundle;
use super::orchard::PcztBundle;
use super::sapling::SaplingParseError;
use super::sapling::SaplingPcztBundle;
use super::transparent::TransparentPcztBundle;
use super::Pczt;

verus! {

/// The Signer.
pub struct Signer {
    pczt: Pczt,
}

/// The error that a failure to parse a bundle is reported as.
pub open spec fn reported_as<E: From<F>, F>(failure: F, error: E) -> bool {
    call_ensures(<E as From<F>>::from, (failure,), error)
}

impl Signer {
    /// The transaction.
    pub closed spec fn pczt(self) -> Pczt {
        self.pczt
    }

    /// The Signer for a transaction.
    pub fn new(pczt: Pczt) -> (r: Signer)
        ensures
            r.pczt() == pczt,
    {
        Signer { pczt }
    }

    /// Parses the Orchard bundle and hands it to `f`, which signs its spends and may change what
    /// can be modified in the transaction. Nothing else of the transaction changes.
    pub fn sign_orchard_with<E, F>(self, f: F) -> (r: Result<Signer, E>) where
        E: From<BundleParseError>,
        F: FnOnce(&Pczt, &mut ParsedBundle, &mut u8) -> Result<(), E>,

        requires
            is_branch_code(self.pczt().global.consensus_branch_id),
            forall|bundle: &mut ParsedBundle, modifiable: &mut u8|
                bundle@ == self.pczt().orchard@.parsed(self.pczt().global.orchard_version())
                    && *modifiable == self.pczt().global.tx_modifiable ==> #[trigger] call_requires(
                    f,
                    (&self.pczt(), bundle, modifiable),
                ),
            forall|bundle: &mut ParsedBundle, modifiable: &mut u8, o: Result<(), E>|
                bundle@ == self.pczt().orchard@.parsed(self.pczt().global.orchard_version())
                    && *modifiable == self.pczt().global.tx_modifiable && #[trigger] call_ensures(
                    f,
                    (&self.pczt(), bundle, modifiable),
                    o,
                ) && o is Ok ==> final(bundle).flags.representable(
                    self.pczt().global.orchard_version(),
                ),
        ensures
            ({
                let pczt = self.pczt();
                let version = pczt.global.orchard_version();
                if !pczt.orchard@.parses(version) {
                    exists|failure: BundleParseError, e: E|
                        failure.explains(pczt.orchard@, version) && #[trigger] reported_as(
                            failure,
                            e,
                        ) && r == Err::<Signer, E>(e)
                } else {
                    exists|bundle: &mut ParsedBundle, modifiable: &mut u8, o: Result<(), E>|
                        bundle@ == pczt.orchard@.parsed(version) && *modifiable
                            == pczt.global.tx_modifiable && #[trigger] call_ensures(
                            f,
                            (&pczt, bundle, modifiable),
                            o,
                        ) && match o {
                            Ok(_) => r matches Ok(signer) && signer.pczt() == (Pczt {
                                global: Global {
                                    tx_modifiable: *final(modifiable),
                                    ..pczt.global
                                },
                                orchard: final(bundle).serialized(version),
                                ..pczt
                            }),
                            Err(e) => r == Err::<Signer, E>(e),
                        }
                }
            }),
    {
        let mut pczt = self.pczt;
        let mut tx_modifiable: u8 = pczt.global.tx_modifiable;
        let version = orchard_bundle_format(&pczt.global);
        let mut bundle = match pczt.orchard.copy().into_parsed_orchard(version) {
            Ok(bundle) => bundle,
            Err(failure) => {
                let e = E::from(failure);
                assert(reported_as(failure, e));
                return Err(e);
            },
        };
        let o = f(&pczt, &mut bundle, &mut tx_modifiable);
        match o {
            Ok(_) => {
                pczt.global.tx_modifiable = tx_modifiable;
                pczt.orchard = PcztBundle::serialize_from(bundle, version);
                Ok(Signer { pczt })
            },
            Err(e) => Err(e),
        }
    }

    /// Parses the Ironwood bundle and hands it to `f`, which signs its spends and may change what
    /// can be modified in the transaction. Nothing else of the transaction changes. Where the
    /// transaction is not one of version 6 on NU6.3, `f` is not called.
    pub fn sign_ironwood_with<E, F>(self, f: F) -> (r: Result<Signer, E>) where
        E: From<BundleParseError>,
        F: FnOnce(&Pczt, &mut ParsedBundle, &mut u8) -> Result<(), E>,

        requires
            self.pczt().global.v6_error() is None ==> forall|
                bundle: &mut ParsedBundle,
                modifiable: &mut u8,
            |
                bundle@ == self.pczt().ironwood@.parsed(BundleVersion::IronwoodV3) && *modifiable
                    == self.pczt().global.tx_modifiable ==> #[trigger] call_requires(
                    f,
                    (&self.pczt(), bundle, modifiable),
                ),
        ensures
            ({
                let pczt = self.pczt();
                let version = BundleVersion::IronwoodV3;
                if pczt.global.v6_error() is Some {
                    exists|e: E| #[trigger]
                        reported_as(BundleParseError::Version(pczt.global.v6_error()->0), e) && r
                            == Err::<Signer, E>(e)
                } else if !pczt.ironwood@.parses(version) {
                    exists|failure: BundleParseError, e: E|
                        failure.explains(pczt.ironwood@, version) && #[trigger] reported_as(
                            failure,
                            e,
                        ) && r == Err::<Signer, E>(e)
                } else {
                    exists|bundle: &mut ParsedBundle, modifiable: &mut u8, o: Result<(), E>|
                        bundle@ == pczt.ironwood@.parsed(version) && *modifiable
                            == pczt.global.tx_modifiable && #[trigger] call_ensures(
                            f,
                            (&pczt, bundle, modifiable),
                            o,
                        ) && match o {
                            Ok(_) => r matches Ok(signer) && signer.pczt() == (Pczt {
                                global: Global {
                                    tx_modifiable: *final(modifiable),
                                    ..pczt.global
                                },
                                ironwood: final(bundle).serialized(version),
                                ..pczt
                            }),
                            Err(e) => r == Err::<Signer, E>(e),
                        }
                }
            }),
    {
        let mut pczt = self.pczt;
        match ensure_v6_consensus_branch(&pczt.global) {
            Ok(_) => {},
            Err(failure) => {
                let e = E::from(BundleParseError::Version(failure));
                assert(reported_as(BundleParseError::Version(failure), e));
                return Err(e);
            },
        }
        let mut tx_modifiable: u8 = pczt.global.tx_modifiable;
        let mut bundle = match pczt.ironwood.copy().into_parsed_ironwood() {
            Ok(bundle) => bundle,
            Err(failure) => {
                let e = E::from(failure);
                assert(reported_as(failure, e));
                return Err(e);
            },
        };
        let o = f(&pczt, &mut bundle, &mut tx_modifiable);
        match o {
            Ok(_) => {
                pczt.global.tx_modifiable = tx_modifiable;
                pczt.ironwood = PcztBundle::serialize_from(bundle, BundleVersion::IronwoodV3);
                Ok(Signer { pczt })
            },
            Err(e) => Err(e),
        }
    }

    /// Parses the Sapling bundle and hands it to `f`, which signs its spends and may change what
    /// can be modified in the transaction. Nothing else of the transaction changes.
    pub fn sign_sapling_with<E, F>(self, f: F) -> (r: Result<Signer, E>) where
        E: From<SaplingParseError>,
        F: FnOnce(&Pczt, &mut SaplingPcztBundle, &mut u8) -> Result<(), E>,

        requires
            forall|bundle: &mut SaplingPcztBundle, modifiable: &mut u8|
                bundle@ == self.pczt().sapling@ && *modifiable == self.pczt().global.tx_modifiable
                    ==> #[trigger] call_requires(f, (&self.pczt(), bundle, modifiable)),
        ensures
            ({
                let pczt = self.pczt();
                if pczt.sapling@.fault() is Some {
                    exists|failure: SaplingParseError, e: E|
                        pczt.sapling@.fault() == Some(failure.fault()) && #[trigger] reported_as(
                            failure,
                            e,
                        ) && r == Err::<Signer, E>(e)
                } else {
                    exists|bundle: &mut SaplingPcztBundle, modifiable: &mut u8, o: Result<(), E>|
                        bundle@ == pczt.sapling@ && *modifiable == pczt.global.tx_modifiable
                            && #[trigger] call_ensures(f, (&pczt, bundle, modifiable), o)
                            && match o {
                            Ok(_) => r matches Ok(signer) && signer.pczt() == (Pczt {
                                global: Global {
                                    tx_modifiable: *final(modifiable),
                                    ..pczt.global
                                },
                                sapling: *final(bundle),
                                ..pczt
                            }),
                            Err(e) => r == Err::<Signer, E>(e),
                        }
                }
            }),
    {
        let mut pczt = self.pczt;
        let mut tx_modifiable: u8 = pczt.global.tx_modifiable;
        match pczt.sapling.check_parses() {
            Ok(_) => {},
            Err(failure) => {
                let e = E::from(failure);
                assert(reported_as(failure, e));
                return Err(e);
            },
        }
        let mut bundle = pczt.sapling.copy();
        let o = f(&pczt, &mut bundle, &mut tx_modifiable);
        match o {
            Ok(_) => {
                pczt.global.tx_modifiable = tx_modifiable;
                pczt.sapling = bundle;
                Ok(Signer { pczt })
            },
            Err(e) => Err(e),
        }
    }

    /// Parses the transparent bundle and hands it to `f`, which signs its inputs and may change
    /// what can be modified in the transaction. Nothing else of the transaction changes.
    pub fn sign_transparent_with<E, F>(self, f: F) -> (r: Result<Signer, E>) where
        E: From<zcash_transparent::pczt::ParseError>,
        F: FnOnce(&Pczt, &mut TransparentPcztBundle, &mut u8) -> Result<(), E>,

        requires
            forall|bundle: &mut TransparentPcztBundle, modifiable: &mut u8|
                bundle@ == self.pczt().transparent@ && *modifiable
                    == self.pczt().global.tx_modifiable ==> #[trigger] call_requires(
                    f,
                    (&self.pczt(), bundle, modifiable),
                ),
        ensures
            ({
                let pczt = self.pczt();
                if !pczt.transparent@.parses() {
                    exists|failure: zcash_transparent::pczt::ParseError, e: E| #[trigger]
                        reported_as(failure, e) && r == Err::<Signer, E>(e)
                } else {
                    exists|
                        bundle: &mut TransparentPcztBundle,
                        modifiable: &mut u8,
                        o: Result<(), E>,
                    |
                        bundle@ == pczt.transparent@ && *modifiable == pczt.global.tx_modifiable
                            && #[trigger] call_ensures(f, (&pczt, bundle, modifiable), o)
                            && match o {
                            Ok(_) => r matches Ok(signer) && signer.pczt() == (Pczt {
                                global: Global {
                                    tx_modifiable: *final(modifiable),
                                    ..pczt.global
                                },
                                transparent: *final(bundle),
                                ..pczt
                            }),
                            Err(e) => r == Err::<Signer, E>(e),
                        }
                }
            }),
    {
        let mut pczt = self.pczt;
        let mut tx_modifiable: u8 = pczt.global.tx_modifiable;
        match pczt.transparent.check_parses() {
            Ok(_) => {},
            Err(failure) => {
                let e = E::from(failure);
                assert(reported_as(failure, e));
                return Err(e);
            },
        }
        let mut bundle = pczt.transparent.copy();
        let o = f(&pczt, &mut bundle, &mut tx_modifiable);
        match o {
            Ok(_) => {
                pczt.global.tx_modifiable = tx_modifiable;
                pczt.transparent = bundle;
                Ok(Signer { pczt })
            },
            Err(e) => Err(e),
        }
    }

    /// The transaction as it is now.
    pub fn finish(self) -> (r: Pczt)
        ensures
            r == self.pczt(),
    {
        self.pczt
    }
}

} // verus!
