//! The Verifier role: it hands each bundle to whoever checks it.

use vstd::prelude::*;
use vstd::std_specs::convert::FromSpecImpl;

use crate::consensus::is_branch_code;
use crate::pool::BundleVersion;

use super::common::ensure_v6_consensus_branch;
use super::common::orchard_bundle_format;
use super::orchard::lemma_parse_then_serialize;
use super::orchard::BundleParseError;
use super::orchard::ParsedBundle;
use super::orchard::PcztBundle;
use super::Pczt;

verus! {

/// Why a part of a bundle is not what the rest of it says.
#[verifier::external_type_specification]
#[verifier::external_body]
pub struct ExVerifyError(::orchard::pczt::VerifyError);

/// The Verifier.
pub struct Verifier {
    pczt: Pczt,
}

/// Why an Orchard-shaped bundle is not accepted.
#[derive(Debug)]
pub enum OrchardError<E> {
    /// The bundle cannot be parsed.
    Parse(BundleParseError),
    /// A part of the bundle is not what the rest of it says.
    Verify(::orchard::pczt::VerifyError),
    /// A reason of the caller's own.
    Custom(E),
}

impl<E> From<::orchard::pczt::VerifyError> for OrchardError<E> {
    fn from(e: ::orchard::pczt::VerifyError) -> (r: OrchardError<E>) {
        OrchardError::Verify(e)
    }
}

impl<E> FromSpecImpl<::orchard::pczt::VerifyError> for OrchardError<E> {
    open spec fn obeys_from_spec() -> bool {
        true
    }

    open spec fn from_spec(e: ::orchard::pczt::VerifyError) -> OrchardError<E> {
        OrchardError::Verify(e)
    }
}

impl Verifier {
    /// The transaction.
    pub closed spec fn pczt(self) -> Pczt {
        self.pczt
    }

    /// The Verifier for a transaction.
    pub fn new(pczt: Pczt) -> (r: Verifier)
        ensures
            r.pczt() == pczt,
    {
        Verifier { pczt }
    }

    /// Parses the Orchard bundle and hands it to `f`, which checks it. The transaction does not
    /// change, but that the sum of the bundle is not negative where it is zero.
    pub fn with_orchard<E, F>(self, f: F) -> (r: Result<Verifier, OrchardError<E>>) where
        F: FnOnce(&ParsedBundle) -> Result<(), OrchardError<E>>,

        requires
            is_branch_code(self.pczt().global.consensus_branch_id),
            self.pczt().orchard@.parses(self.pczt().global.orchard_version()) ==> call_requires(
                f,
                (&self.pczt().orchard.parsed(self.pczt().global.orchard_version()),),
            ),
        ensures
            ({
                let pczt = self.pczt();
                let version = pczt.global.orchard_version();
                if !pczt.orchard@.parses(version) {
                    r matches Err(OrchardError::Parse(failure)) && failure.explains(
                        pczt.orchard@,
                        version,
                    )
                } else {
                    exists|o: Result<(), OrchardError<E>>| #[trigger]
                        call_ensures(f, (&pczt.orchard.parsed(version),), o) && match o {
                            Ok(_) => r matches Ok(done) && done.pczt() == (Pczt {
                                orchard: pczt.orchard.passed_on(),
                                ..pczt
                            }),
                            Err(e) => r matches Err(x) && x == e,
                        }
                }
            }),
    {
        let Pczt { global, transparent, sapling, orchard, ironwood } = self.pczt;
        let version = orchard_bundle_format(&global);
        let bundle = match orchard.into_parsed_orchard(version) {
            Ok(bundle) => bundle,
            Err(failure) => {
                return Err(OrchardError::Parse(failure));
            },
        };
        let o = f(&bundle);
        match o {
            Ok(_) => {},
            Err(e) => {
                return Err(e);
            },
        }
        proof {
            lemma_parse_then_serialize(self.pczt.orchard, version);
        }
        Ok(
            Verifier {
                pczt: Pczt {
                    global,
                    transparent,
                    sapling,
                    orchard: PcztBundle::serialize_from(bundle, version),
                    ironwood,
                },
            },
        )
    }

    /// Parses the Ironwood bundle and hands it to `f`, which checks it. The transaction does not
    /// change, but that the sum of the bundle is not negative where it is zero. Where it is not
    /// one of version 6 on NU6.3, `f` is not called.
    pub fn with_ironwood<E, F>(self, f: F) -> (r: Result<Verifier, OrchardError<E>>) where
        F: FnOnce(&ParsedBundle) -> Result<(), OrchardError<E>>,

        requires
            self.pczt().global.v6_error() is None && self.pczt().ironwood@.parses(
                BundleVersion::IronwoodV3,
            ) ==> call_requires(
                f,
                (&self.pczt().ironwood.parsed(BundleVersion::IronwoodV3),),
            ),
        ensures
            ({
                let pczt = self.pczt();
                let version = BundleVersion::IronwoodV3;
                if pczt.global.v6_error() is Some {
                    r matches Err(OrchardError::Parse(BundleParseError::Version(e))) && Some(e)
                        == pczt.global.v6_error()
                } else if !pczt.ironwood@.parses(version) {
                    r matches Err(OrchardError::Parse(failure)) && failure.explains(
                        pczt.ironwood@,
                        version,
                    )
                } else {
                    exists|o: Result<(), OrchardError<E>>| #[trigger]
                        call_ensures(f, (&pczt.ironwood.parsed(version),), o) && match o {
                            Ok(_) => r matches Ok(done) && done.pczt() == (Pczt {
                                ironwood: pczt.ironwood.passed_on(),
                                ..pczt
                            }),
                            Err(e) => r matches Err(x) && x == e,
                        }
                }
            }),
    {
        let Pczt { global, transparent, sapling, orchard, ironwood } = self.pczt;
        match ensure_v6_consensus_branch(&global) {
            Ok(_) => {},
            Err(failure) => {
                return Err(OrchardError::Parse(BundleParseError::Version(failure)));
            },
        }
        let bundle = match ironwood.into_parsed_ironwood() {
            Ok(bundle) => bundle,
            Err(failure) => {
                return Err(OrchardError::Parse(failure));
            },
        };
        let o = f(&bundle);
        match o {
            Ok(_) => {},
            Err(e) => {
                return Err(e);
            },
        }
        proof {
            lemma_parse_then_serialize(self.pczt.ironwood, BundleVersion::IronwoodV3);
        }
        Ok(
            Verifier {
                pczt: Pczt {
                    global,
                    transparent,
                    sapling,
                    orchard,
                    ironwood: PcztBundle::serialize_from(bundle, BundleVersion::IronwoodV3),
                },
            },
        )
    }

    /// The transaction.
    pub fn finish(self) -> (r: Pczt)
        ensures
            r == self.pczt(),
    {
        self.pczt
    }
}

} // verus!
