//! The Orchard-shaped value pools: how their bundles are versioned, flagged and padded.

use vstd::prelude::*;

use orchard::builder::BundleType as OrchardBundleType;
use orchard::bundle::BundleVersion as OrchardBundleVersion;
use orchard::bundle::Flags as OrchardFlags;

use crate::consensus::BlockHeight;
use crate::consensus::BranchId;
use crate::consensus::NetworkUpgrade;
use crate::consensus::Params;

verus! {

/// The pools that hold shielded notes. Ironwood notes count as Orchard here: they are spent with
/// Orchard keys and sent to Orchard receivers.
#[derive(Clone, Copy, Debug, PartialEq, Eq, Structural)]
pub enum ShieldedProtocol {
    Sapling,
    Orchard,
}

/// The pool and the protocol revision that an Orchard-shaped bundle follows.
#[derive(Clone, Copy, Debug, PartialEq, Eq, Structural)]
pub enum BundleVersion {
    /// The Orchard pool before NU6.2.
    OrchardInsecureV1,
    /// The Orchard pool from NU6.2 until NU6.3.
    OrchardV2,
    /// The Orchard pool from NU6.3 on.
    OrchardV3,
    /// The Ironwood pool, which starts at NU6.3.
    IronwoodV3,
}

/// The versions of an Orchard-shaped note plaintext.
#[derive(Clone, Copy, Debug, PartialEq, Eq, Structural)]
pub enum NoteVersion {
    V2,
    V3,
}

/// What the actions of a bundle may do.
#[derive(Clone, Copy, Debug, PartialEq, Eq, Structural)]
pub struct Flags {
    /// Whether the spent notes may be real.
    pub spends_enabled: bool,
    /// Whether the created notes may be real.
    pub outputs_enabled: bool,
    /// Whether an action may send to another receiver than that of the note it spends.
    pub cross_address_enabled: bool,
}

/// Whether one bit of a byte is set.
pub open spec fn bit(byte: u8, weight: int) -> bool {
    (byte as int / weight) % 2 == 1
}

impl BundleVersion {
    /// Whether the bundle belongs to the Ironwood pool.
    pub open spec fn ironwood(self) -> bool {
        self is IronwoodV3
    }

    /// Whether an action may send to another receiver than that of the note it spends.
    pub open spec fn permits_cross_address(self) -> bool {
        !(self is OrchardV3)
    }

    /// Whether a proof of any other than the expected size is refused.
    pub open spec fn proof_size_enforced(self) -> bool {
        !(self is OrchardInsecureV1)
    }

    /// The version of the note plaintexts in the pool.
    pub open spec fn plaintext_version(self) -> NoteVersion {
        if self.ironwood() {
            NoteVersion::V3
        } else {
            NoteVersion::V2
        }
    }

    /// The version of the note plaintexts in the pool: notes of the Orchard pool are of version 2
    /// and notes of the Ironwood pool of version 3.
    pub fn note_version(&self) -> (r: NoteVersion)
        ensures
            r == self.plaintext_version(),
    {
        match self {
            BundleVersion::IronwoodV3 => NoteVersion::V3,
            _ => NoteVersion::V2,
        }
    }

    /// Whether a proof of any other than the expected size is refused.
    pub fn enforces_canonical_proof_size(&self) -> (r: bool)
        ensures
            r == self.proof_size_enforced(),
    {
        !matches!(self, BundleVersion::OrchardInsecureV1)
    }

    /// The flags of a bundle on which no further restriction is put.
    pub open spec fn unrestricted_flags(self) -> Flags {
        Flags {
            spends_enabled: true,
            outputs_enabled: true,
            cross_address_enabled: self.permits_cross_address(),
        }
    }

    /// The flags of a bundle on which no further restriction is put.
    pub fn default_flags(&self) -> (r: Flags)
        ensures
            r == self.unrestricted_flags(),
    {
        Flags {
            spends_enabled: true,
            outputs_enabled: true,
            cross_address_enabled: !matches!(self, BundleVersion::OrchardV3),
        }
    }

    /// The version of the Orchard pool's bundles under the rules of a branch; there is none
    /// before NU5, which brings the pool.
    pub open spec fn orchard_under(branch: BranchId) -> Option<BundleVersion> {
        match branch {
            BranchId::Nu5 | BranchId::Nu6 | BranchId::Nu6_1 => Some(
                BundleVersion::OrchardInsecureV1,
            ),
            BranchId::Nu6_2 => Some(BundleVersion::OrchardV2),
            BranchId::Nu6_3 | BranchId::Nu7 => Some(BundleVersion::OrchardV3),
            _ => None,
        }
    }

    /// The version of the Orchard pool's bundles under the rules of `branch`.
    pub fn orchard_for_branch(branch: BranchId) -> (r: Option<BundleVersion>)
        ensures
            r == Self::orchard_under(branch),
    {
        match branch {
            BranchId::Nu5 | BranchId::Nu6 | BranchId::Nu6_1 => Some(
                BundleVersion::OrchardInsecureV1,
            ),
            BranchId::Nu6_2 => Some(BundleVersion::OrchardV2),
            BranchId::Nu6_3 | BranchId::Nu7 => Some(BundleVersion::OrchardV3),
            _ => None,
        }
    }

    /// The version of the Orchard pool's bundles at a height.
    pub open spec fn orchard_at(params: Params, height: BlockHeight) -> BundleVersion {
        if params.active(NetworkUpgrade::Nu6_3, height) || params.active(
            NetworkUpgrade::Nu7,
            height,
        ) {
            BundleVersion::OrchardV3
        } else if params.active(NetworkUpgrade::Nu6_2, height) {
            BundleVersion::OrchardV2
        } else {
            BundleVersion::OrchardInsecureV1
        }
    }

    /// The version of the Orchard pool's bundles at `height`.
    pub fn orchard_for_height(params: &Params, height: BlockHeight) -> (r: BundleVersion)
        ensures
            r == Self::orchard_at(*params, height),
    {
        if params.is_nu_active(NetworkUpgrade::Nu6_3, height) || params.is_nu_active(
            NetworkUpgrade::Nu7,
            height,
        ) {
            BundleVersion::OrchardV3
        } else if params.is_nu_active(NetworkUpgrade::Nu6_2, height) {
            BundleVersion::OrchardV2
        } else {
            BundleVersion::OrchardInsecureV1
        }
    }

    /// How many actions a bundle needs for the given spends and outputs. A spend and an output
    /// share an action, unless their receivers may not differ; a bundle that has any action at
    /// all is padded to two.
    pub open spec fn actions_needed(self, spends: nat, outputs: nat) -> nat {
        let requested = if !self.permits_cross_address() {
            spends + outputs
        } else if spends >= outputs {
            spends
        } else {
            outputs
        };
        if requested == 1 {
            2
        } else {
            requested
        }
    }
}

/// The version that an Orchard bundle is written in under the rules of a branch. Branches from
/// before the Orchard pool count as its earliest ones.
pub open spec fn bundle_version_under(branch: BranchId) -> BundleVersion {
    match BundleVersion::orchard_under(branch) {
        Some(version) => version,
        None => BundleVersion::OrchardInsecureV1,
    }
}

/// The version that an Orchard bundle is written in under the rules of `branch`.
pub fn orchard_protocol_for_branch(branch: BranchId) -> (r: BundleVersion)
    ensures
        r == bundle_version_under(branch),
{
    match BundleVersion::orchard_for_branch(branch) {
        Some(version) => version,
        None => BundleVersion::OrchardInsecureV1,
    }
}

/// How many actions a bundle of the default type needs for the given spends and outputs.
///
/// This is `orchard::builder::BundleType::num_actions` on `BundleType::DEFAULT` and the default
/// flags of the version, `orchard::bundle::BundleVersion::default_flags`. Those flags disable
/// neither spends nor outputs, so the one error left is that the sum of the two counts, which is
/// needed where they may not share actions, exceeds a `usize`.
#[verifier::external_body]
fn default_num_actions(version: BundleVersion, num_spends: usize, num_outputs: usize) -> (r: Result<
    usize,
    &'static str,
>)
    ensures
        match r {
            Ok(n) => n == version.actions_needed(num_spends as nat, num_outputs as nat),
            Err(message) => !version.permits_cross_address() && num_spends + num_outputs
                > usize::MAX && message@ == "num_spends + num_outputs overflowed"@,
        },
{
    let version = match version {
        BundleVersion::OrchardInsecureV1 => OrchardBundleVersion::orchard_insecure_v1(),
        BundleVersion::OrchardV2 => OrchardBundleVersion::orchard_v2(),
        BundleVersion::OrchardV3 => OrchardBundleVersion::orchard_v3(),
        BundleVersion::IronwoodV3 => OrchardBundleVersion::ironwood_v3(),
    };
    OrchardBundleType::DEFAULT.num_actions(version.default_flags(), num_spends, num_outputs)
}

/// How many actions a transactional bundle needs for the given spends and outputs, or why it
/// cannot be said.
pub fn transactional_action_count(
    protocol: BundleVersion,
    num_spends: usize,
    num_outputs: usize,
) -> (r: Result<usize, &'static str>)
    ensures
        r is Ok <==> protocol.permits_cross_address() || num_spends + num_outputs <= usize::MAX,
        match r {
            Ok(n) => n == protocol.actions_needed(num_spends as nat, num_outputs as nat),
            Err(message) => message@ == "num_spends + num_outputs overflowed"@,
        },
{
    default_num_actions(protocol, num_spends, num_outputs)
}

impl Flags {
    /// Whether the flags can be written down at all in a bundle of the given version.
    pub open spec fn representable(self, version: BundleVersion) -> bool {
        version.ironwood() || self.cross_address_enabled == version.permits_cross_address()
    }

    /// The byte that stands for the flags.
    pub open spec fn byte(self, version: BundleVersion) -> u8 {
        ((if self.spends_enabled { 1int } else { 0 }) + (if self.outputs_enabled { 2int } else { 0 })
            + (if self.cross_address_enabled && version.ironwood() { 4int } else { 0 })) as u8
    }

    /// Whether a byte stands for some flags in a bundle of the given version.
    pub open spec fn byte_valid(byte: u8, version: BundleVersion) -> bool {
        byte < (if version.ironwood() { 8int } else { 4 })
    }

    /// The flags that a byte stands for.
    pub open spec fn of_byte(byte: u8, version: BundleVersion) -> Flags {
        Flags {
            spends_enabled: bit(byte, 1),
            outputs_enabled: bit(byte, 2),
            cross_address_enabled: if version.ironwood() {
                bit(byte, 4)
            } else {
                version.permits_cross_address()
            },
        }
    }

    /// The byte that stands for the flags, unless the version cannot express them.
    pub fn to_byte(&self, version: BundleVersion) -> (r: Option<u8>)
        ensures
            r == (if self.representable(version) {
                Some(self.byte(version))
            } else {
                None
            }),
    {
        let mut value: u8 = 0;
        if self.spends_enabled {
            value = value + 1;
        }
        if self.outputs_enabled {
            value = value + 2;
        }
        match version {
            BundleVersion::OrchardInsecureV1 | BundleVersion::OrchardV2 => {
                if !self.cross_address_enabled {
                    return None;
                }
            },
            BundleVersion::OrchardV3 => {
                if self.cross_address_enabled {
                    return None;
                }
            },
            BundleVersion::IronwoodV3 => {
                if self.cross_address_enabled {
                    value = value + 4;
                }
            },
        }
        Some(value)
    }

    /// The flags that a byte stands for, unless it has bits that mean nothing.
    pub fn from_byte(byte: u8, version: BundleVersion) -> (r: Option<Flags>)
        ensures
            r == (if Self::byte_valid(byte, version) {
                Some(Self::of_byte(byte, version))
            } else {
                None
            }),
    {
        orchard_flags_from_byte(byte, version)
    }
}

/// The flags that a byte stands for.
///
/// This is `orchard::bundle::Flags::from_byte`: the lowest bit enables spends and the next one
/// outputs; the third enables cross-address transfers in an Ironwood bundle and must be clear in
/// an Orchard bundle, where the version alone decides of them; all others must be clear.
#[verifier::external_body]
fn orchard_flags_from_byte(byte: u8, version: BundleVersion) -> (r: Option<Flags>)
    ensures
        r == (if Flags::byte_valid(byte, version) {
            Some(Flags::of_byte(byte, version))
        } else {
            None
        }),
{
    let version = match version {
        BundleVersion::OrchardInsecureV1 => OrchardBundleVersion::orchard_insecure_v1(),
        BundleVersion::OrchardV2 => OrchardBundleVersion::orchard_v2(),
        BundleVersion::OrchardV3 => OrchardBundleVersion::orchard_v3(),
        BundleVersion::IronwoodV3 => OrchardBundleVersion::ironwood_v3(),
    };
    OrchardFlags::from_byte(byte, version).map(
        |flags| Flags {
            spends_enabled: flags.spends_enabled(),
            outputs_enabled: flags.outputs_enabled(),
            cross_address_enabled: flags.cross_address_enabled(),
        })
}

/// Flags that can be written down are read back unchanged.
pub proof fn lemma_flags_write_read(flags: Flags, version: BundleVersion)
    requires
        flags.representable(version),
    ensures
        Flags::byte_valid(flags.byte(version), version),
        Flags::of_byte(flags.byte(version), version) == flags,
{
}

/// A byte that stands for some flags is what those flags are written as.
pub proof fn lemma_flags_read_write(byte: u8, version: BundleVersion)
    requires
        Flags::byte_valid(byte, version),
    ensures
        Flags::of_byte(byte, version).representable(version),
        Flags::of_byte(byte, version).byte(version) == byte,
{
    assert(byte == byte as int % 2 + 2 * ((byte as int / 2) % 2) + 4 * ((byte as int / 4) % 2));
}

/// The flags on which no restriction is put can always be written down.
pub proof fn lemma_unrestricted_flags_representable(version: BundleVersion)
    ensures
        version.unrestricted_flags().representable(version),
{
}

/// Orchard bundles are of the first version up to NU6.1, of the second in NU6.2 and of the third from
/// NU6.3 on; none is an Ironwood bundle.
pub proof fn lemma_versions_of_branches(branch: BranchId, r: BundleVersion)
    requires
        call_ensures(orchard_protocol_for_branch, (branch,), r),
    ensures
        r is OrchardV3 <==> branch is Nu6_3 || branch is Nu7,
        r is OrchardV2 <==> branch is Nu6_2,
        !(r is IronwoodV3),
{
}

/// At a height, Orchard bundles are of the third version if NU6.3 or NU7 is in effect, else of the
/// second if NU6.2 is, and else of the first.
pub proof fn lemma_versions_at_heights(params: Params, height: BlockHeight, r: BundleVersion)
    requires
        call_ensures(BundleVersion::orchard_for_height, (&params, height), r),
    ensures
        r is OrchardV3 <==> (params.nu6_3 matches Some(h) && h <= height) || (
        params.nu7 matches Some(h) && h <= height),
        !(r is OrchardV3) ==> (r is OrchardV2 <==> (params.nu6_2 matches Some(h) && h <= height)),
        !(r is IronwoodV3),
{
}

/// A bundle has an action for each spend and an action for each output where these may not share one,
/// and else as many as the more numerous of them, but two if that is one. More of either never needs
/// fewer actions.
pub proof fn lemma_actions_needed(version: BundleVersion, spends: nat, outputs: nat)
    ensures
        ({
            let n = version.actions_needed(spends, outputs);
            &&& n != 1
            &&& n >= spends && n >= outputs
            &&& n == 0 <==> spends == 0 && outputs == 0
            &&& version is OrchardV3 ==> n >= spends + outputs && n <= spends + outputs + 1
            &&& version is OrchardV3 && spends + outputs >= 2 ==> n == spends + outputs
            &&& !(version is OrchardV3) && (spends >= 2 || outputs >= 2) ==> n == spends || n
                == outputs
            &&& spends + outputs > 0 && spends <= 1 && outputs <= 1 ==> n == 2
            &&& n <= version.actions_needed(spends + 1, outputs)
            &&& n <= version.actions_needed(spends, outputs + 1)
        }),
{
}

/// The lowest bit of the byte that flags are written as enables spends and the next one outputs. The
/// third enables payments to other receivers in an Ironwood bundle, and is clear in others, where the
/// flags can be written only if they agree with the version.
pub proof fn lemma_flag_bits(flags: Flags, version: BundleVersion, r: Option<u8>)
    requires
        call_ensures(Flags::to_byte, (&flags, version), r),
    ensures
        match r {
            Some(byte) => {
                &&& (byte % 2 == 1) == flags.spends_enabled
                &&& ((byte / 2) % 2 == 1) == flags.outputs_enabled
                &&& (byte >= 4) == (version is IronwoodV3 && flags.cross_address_enabled)
                &&& byte < 8
                &&& version is OrchardV3 ==> !flags.cross_address_enabled
                &&& version is OrchardInsecureV1 || version is OrchardV2
                    ==> flags.cross_address_enabled
            },
            None => !(version is IronwoodV3) && flags.cross_address_enabled == (
            version is OrchardV3),
        },
{
}

} // verus!
