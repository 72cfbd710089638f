//! Builders that make an Orchard bundle where there is one to make.

use vstd::prelude::*;

use crate::consensus::BlockHeight;
use crate::consensus::NetworkUpgrade;
use crate::consensus::Params;
use crate::field::pallas_base_canonical;
use crate::pool::BundleVersion;
use crate::pool::Flags;

verus! {

/// A builder of Orchard bundles.
#[verifier::external_type_specification]
#[verifier::external_body]
pub struct ExBuilder(::orchard::builder::Builder);

/// What a builder of Orchard bundles has been made with.
#[derive(Clone, Copy)]
pub struct BuilderSettings {
    /// The version of the bundle.
    pub version: BundleVersion,
    /// The flags of the bundle.
    pub flags: Flags,
    /// The anchor of the bundle.
    pub anchor: [u8; 32],
}

/// No bundle is built.
pub struct WithoutOrchard;

/// A bundle is built if the Orchard pool is active.
pub struct WithOrchard {
    builder: Option<(BuilderSettings, ::orchard::builder::Builder)>,
}

/// A builder without spends and outputs, for a bundle of the default type on whose flags no
/// further restriction is put.
///
/// This is `orchard::builder::Builder::new` on `BundleType::DEFAULT` and the default flags of the
/// version. Neither of its errors occurs: those flags can be written down in the version, and the
/// type is not that of a coinbase bundle. Nothing is said of the builder, which can only be used.
#[verifier::external_body]
fn new_builder(version: BundleVersion, anchor: &[u8; 32]) -> (r: ::orchard::builder::Builder)
    requires
        pallas_base_canonical(anchor@),
{
    let version = match version {
        BundleVersion::OrchardInsecureV1 => ::orchard::bundle::BundleVersion::orchard_insecure_v1(),
        BundleVersion::OrchardV2 => ::orchard::bundle::BundleVersion::orchard_v2(),
        BundleVersion::OrchardV3 => ::orchard::bundle::BundleVersion::orchard_v3(),
        BundleVersion::IronwoodV3 => ::orchard::bundle::BundleVersion::ironwood_v3(),
    };
    ::orchard::builder::Builder::new(
        ::orchard::builder::BundleType::DEFAULT, version, version.default_flags(),
        ::orchard::Anchor::from_bytes(*anchor).unwrap()).unwrap()
}

/// Whether a builder may be one that is made with the given settings: for their version and anchor,
/// and with the flags that the version has by default.
pub closed spec fn made_with(
    builder: ::orchard::builder::Builder,
    settings: BuilderSettings,
) -> bool {
    &&& settings.flags == settings.version.unrestricted_flags()
    &&& call_ensures(new_builder, (settings.version, &settings.anchor), builder)
}

/// Where an Orchard bundle may be built.
pub trait MaybeOrchard: Sized {
    /// What the bundle is built with, where one is built.
    spec fn settings(&self) -> Option<BuilderSettings>;

    /// The builder, where a bundle is built.
    spec fn made(&self) -> Option<::orchard::builder::Builder>;

    /// Has `f` build the bundle, where one is built.
    fn build<T, F: FnOnce(::orchard::builder::Builder) -> T>(self, f: F) -> (r: Option<T>)
        requires
            self.made() matches Some(builder) ==> call_requires(f, (builder,)),
        ensures
            self.settings() is Some <==> self.made() is Some,
            match self.made() {
                Some(builder) => r is Some && call_ensures(f, (builder,), r->0),
                None => r is None,
            },
    ;
}

impl MaybeOrchard for WithOrchard {
    closed spec fn settings(&self) -> Option<BuilderSettings> {
        match self.builder {
            Some((settings, _)) => Some(settings),
            None => None,
        }
    }

    closed spec fn made(&self) -> Option<::orchard::builder::Builder> {
        match self.builder {
            Some((_, builder)) => Some(builder),
            None => None,
        }
    }

    fn build<T, F: FnOnce(::orchard::builder::Builder) -> T>(self, f: F) -> (r: Option<T>) {
        match self.builder {
            Some((_, builder)) => Some(f(builder)),
            None => None,
        }
    }
}

impl MaybeOrchard for WithoutOrchard {
    open spec fn settings(&self) -> Option<BuilderSettings> {
        None
    }

    open spec fn made(&self) -> Option<::orchard::builder::Builder> {
        None
    }

    fn build<T, F: FnOnce(::orchard::builder::Builder) -> T>(self, f: F) -> (r: Option<T>) {
        None
    }
}

impl WithOrchard {
    /// There is a builder if the Orchard pool, which NU5 brings, is active at the height: spends
    /// and outputs are enabled, and an action may send to another receiver than that of the note
    /// it spends unless the rules at the height forbid it.
    pub fn new(params: &Params, target_height: BlockHeight, anchor: [u8; 32]) -> (r: WithOrchard)
        requires
            pallas_base_canonical(anchor@),
        ensures
            r.settings() == (if params.active(NetworkUpgrade::Nu5, target_height) {
                Some(
                    BuilderSettings {
                        version: BundleVersion::orchard_at(*params, target_height),
                        flags: BundleVersion::orchard_at(
                            *params,
                            target_height,
                        ).unrestricted_flags(),
                        anchor,
                    },
                )
            } else {
                None
            }),
            match (r.settings(), r.made()) {
                (Some(settings), Some(builder)) => made_with(builder, settings),
                (None, None) => true,
                _ => false,
            },
    {
        if params.is_nu_active(NetworkUpgrade::Nu5, target_height) {
            let version = BundleVersion::orchard_for_height(params, target_height);
            let settings = BuilderSettings { version, flags: version.default_flags(), anchor };
            let make = new_builder;
            WithOrchard { builder: Some((settings, make(version, &anchor))) }
        } else {
            WithOrchard { builder: None }
        }
    }
}

/// A bundle is built from NU5 on, with the given anchor and with spends and outputs enabled; from NU6.3
/// on, or from NU7 on, no action may pay another receiver, and before that any may.
pub proof fn lemma_builder_settings(
    params: Params,
    height: BlockHeight,
    anchor: [u8; 32],
    r: WithOrchard,
)
    requires
        call_ensures(WithOrchard::new, (&params, height, anchor), r),
    ensures
        r.settings() is Some <==> (params.nu5 matches Some(h) && h <= height),
        r.made() is Some <==> r.settings() is Some,
        r.settings() matches Some(settings) ==> {
            let restricted = (params.nu6_3 matches Some(h) && h <= height) || (
            params.nu7 matches Some(h) && h <= height);
            &&& settings.anchor == anchor
            &&& settings.flags.spends_enabled
            &&& settings.flags.outputs_enabled
            &&& settings.flags.cross_address_enabled == !restricted
            &&& settings.version is OrchardV3 <==> restricted
            &&& !restricted ==> (settings.version is OrchardV2 <==> (params.nu6_2 matches Some(h)
                && h <= height))
        },
{
}

} // verus!
