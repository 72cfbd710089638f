//! Network upgrades, consensus branches and transaction versions.

use vstd::prelude::*;

use zcash_protocol::consensus::Network as ProtocolNetwork;
use zcash_protocol::consensus::NetworkConstants;
use zcash_protocol::consensus::NetworkType as ProtocolNetworkType;
use zcash_protocol::consensus::NetworkUpgrade as ProtocolUpgrade;
use zcash_protocol::consensus::Parameters;

verus! {

/// A height in the block chain.
pub type BlockHeight = u32;

/// The number of the transaction format that Sapling brought.
pub const V4_TX_VERSION: u32 = 4;

/// The group of that format.
pub const V4_VERSION_GROUP_ID: u32 = 0x892F2085;

/// The version number of a version 5 transaction.
pub const V5_TX_VERSION: u32 = 5;

/// The version group of a version 5 transaction.
pub const V5_VERSION_GROUP_ID: u32 = 0x26A7270A;

/// The version number of a version 6 transaction.
pub const V6_TX_VERSION: u32 = 6;

/// The version group of a version 6 transaction.
pub const V6_VERSION_GROUP_ID: u32 = 0xD884B698;

/// How many blocks after Canopy both forms of Sapling note plaintexts are accepted.
pub const ZIP212_GRACE_PERIOD: u32 = 32256;

/// The kind of network that a chain belongs to.
#[derive(Clone, Copy, Debug, PartialEq, Eq, Structural)]
pub enum NetworkType {
    Main,
    Test,
    Regtest,
}

/// The network upgrades, in their order of activation.
#[derive(Clone, Copy, Debug, PartialEq, Eq, Structural)]
pub enum NetworkUpgrade {
    Overwinter,
    Sapling,
    Blossom,
    Heartwood,
    Canopy,
    Nu5,
    Nu6,
    Nu6_1,
    Nu6_2,
    Nu6_3,
    Nu7,
}

/// The sets of consensus rules, each named after the upgrade that brings it.
#[derive(Clone, Copy, Debug, PartialEq, Eq, Structural)]
pub enum BranchId {
    Sprout,
    Overwinter,
    Sapling,
    Blossom,
    Heartwood,
    Canopy,
    Nu5,
    Nu6,
    Nu6_1,
    Nu6_2,
    Nu6_3,
    Nu7,
}

/// The versions of a transaction.
#[derive(Clone, Copy, Debug, PartialEq, Eq, Structural)]
pub enum TxVersion {
    /// A transaction from before Overwinter, with its version number.
    Sprout(u32),
    V3,
    V4,
    V5,
    V6,
}

/// The parameters of a chain: its kind, and the height at which each upgrade activates, where
/// that is known.
#[derive(Clone, Copy, Debug, PartialEq, Eq)]
pub struct Params {
    pub network: NetworkType,
    pub overwinter: Option<BlockHeight>,
    pub sapling: Option<BlockHeight>,
    pub blossom: Option<BlockHeight>,
    pub heartwood: Option<BlockHeight>,
    pub canopy: Option<BlockHeight>,
    pub nu5: Option<BlockHeight>,
    pub nu6: Option<BlockHeight>,
    pub nu6_1: Option<BlockHeight>,
    pub nu6_2: Option<BlockHeight>,
    pub nu6_3: Option<BlockHeight>,
    pub nu7: Option<BlockHeight>,
}

/// The forms of Sapling note plaintext that are accepted at a height.
#[derive(Clone, Copy, Debug, PartialEq, Eq, Structural)]
pub enum Zip212Enforcement {
    Off,
    GracePeriod,
    On,
}

impl BranchId {
    /// The number by which transactions commit to a branch.
    pub open spec fn code(self) -> u32 {
        match self {
            BranchId::Sprout => 0,
            BranchId::Overwinter => 0x5ba8_1b19,
            BranchId::Sapling => 0x76b8_09bb,
            BranchId::Blossom => 0x2bb4_0e60,
            BranchId::Heartwood => 0xf5b9_230b,
            BranchId::Canopy => 0xe9ff_75a6,
            BranchId::Nu5 => 0xc2d6_d0b4,
            BranchId::Nu6 => 0xc8e7_1055,
            BranchId::Nu6_1 => 0x4dec_4df0,
            BranchId::Nu6_2 => 0x5437_f330,
            BranchId::Nu6_3 => 0x37a5_165b,
            BranchId::Nu7 => 0x7719_0ad9,
        }
    }

    /// The number by which transactions commit to this branch.
    pub fn to_u32(self) -> (r: u32)
        ensures
            r == self.code(),
    {
        match self {
            BranchId::Sprout => 0,
            BranchId::Overwinter => 0x5ba8_1b19,
            BranchId::Sapling => 0x76b8_09bb,
            BranchId::Blossom => 0x2bb4_0e60,
            BranchId::Heartwood => 0xf5b9_230b,
            BranchId::Canopy => 0xe9ff_75a6,
            BranchId::Nu5 => 0xc2d6_d0b4,
            BranchId::Nu6 => 0xc8e7_1055,
            BranchId::Nu6_1 => 0x4dec_4df0,
            BranchId::Nu6_2 => 0x5437_f330,
            BranchId::Nu6_3 => 0x37a5_165b,
            BranchId::Nu7 => 0x7719_0ad9,
        }
    }

    /// The branch with the given number, if there is one.
    pub fn from_u32(code: u32) -> (r: Option<BranchId>)
        ensures
            forall|b: BranchId| r == Some(b) <==> #[trigger] b.code() == code,
    {
        match code {
            0 => Some(BranchId::Sprout),
            0x5ba8_1b19 => Some(BranchId::Overwinter),
            0x76b8_09bb => Some(BranchId::Sapling),
            0x2bb4_0e60 => Some(BranchId::Blossom),
            0xf5b9_230b => Some(BranchId::Heartwood),
            0xe9ff_75a6 => Some(BranchId::Canopy),
            0xc2d6_d0b4 => Some(BranchId::Nu5),
            0xc8e7_1055 => Some(BranchId::Nu6),
            0x4dec_4df0 => Some(BranchId::Nu6_1),
            0x5437_f330 => Some(BranchId::Nu6_2),
            0x37a5_165b => Some(BranchId::Nu6_3),
            0x7719_0ad9 => Some(BranchId::Nu7),
            _ => None,
        }
    }
}

/// Whether some branch has the given number.
pub open spec fn is_branch_code(code: u32) -> bool {
    exists|b: BranchId| #[trigger] b.code() == code
}

/// The branch that has the given number.
pub open spec fn branch_of_code(code: u32) -> BranchId {
    choose|b: BranchId| #[trigger] b.code() == code
}

impl TxVersion {
    /// Whether transactions of this version are accepted under the rules of a branch.
    pub open spec fn accepted_in(self, branch: BranchId) -> bool {
        match self {
            TxVersion::Sprout(_) => branch is Sprout,
            TxVersion::V3 => branch is Overwinter,
            TxVersion::V4 => !(branch is Sprout || branch is Overwinter || branch is Nu7),
            TxVersion::V5 => branch is Nu5 || branch is Nu6 || branch is Nu6_1 || branch is Nu6_2
                || branch is Nu6_3 || branch is Nu7,
            TxVersion::V6 => branch is Nu6_3 || branch is Nu7,
        }
    }

    /// Whether transactions of this version are accepted under the rules of `branch`.
    pub fn valid_in_branch(&self, branch: BranchId) -> (r: bool)
        ensures
            r == self.accepted_in(branch),
    {
        match self {
            TxVersion::Sprout(_) => matches!(branch, BranchId::Sprout),
            TxVersion::V3 => matches!(branch, BranchId::Overwinter),
            TxVersion::V4 => match branch {
                BranchId::Sprout | BranchId::Overwinter | BranchId::Nu7 => false,
                _ => true,
            },
            TxVersion::V5 => match branch {
                BranchId::Nu5 | BranchId::Nu6 | BranchId::Nu6_1 | BranchId::Nu6_2
                | BranchId::Nu6_3 | BranchId::Nu7 => true,
                _ => false,
            },
            TxVersion::V6 => match branch {
                BranchId::Nu6_3 | BranchId::Nu7 => true,
                _ => false,
            },
        }
    }
}

impl NetworkType {
    /// The coin type that keys of this network are derived under.
    pub open spec fn registered_coin_type(self) -> u32 {
        match self {
            NetworkType::Main => 133,
            NetworkType::Test => 1,
            NetworkType::Regtest => 1,
        }
    }

    /// The coin type that keys of this network are derived under.
    ///
    /// The numbers are those of `zcash_protocol::consensus::NetworkType::coin_type`: 133 for the
    /// main network, 1 for the test network and for regtest.
    #[verifier::external_body]
    pub(crate) fn coin_type(self) -> (r: u32)
        ensures
            r == self.registered_coin_type(),
    {
        let network = match self {
            NetworkType::Main => ProtocolNetworkType::Main,
            NetworkType::Test => ProtocolNetworkType::Test,
            NetworkType::Regtest => ProtocolNetworkType::Regtest,
        };
        network.coin_type()
    }
}

/// The heights at which the upgrades activated, or will, on the main network.
pub open spec fn main_activation(nu: NetworkUpgrade) -> BlockHeight {
    match nu {
        NetworkUpgrade::Overwinter => 347_500,
        NetworkUpgrade::Sapling => 419_200,
        NetworkUpgrade::Blossom => 653_600,
        NetworkUpgrade::Heartwood => 903_000,
        NetworkUpgrade::Canopy => 1_046_400,
        NetworkUpgrade::Nu5 => 1_687_104,
        NetworkUpgrade::Nu6 => 2_726_400,
        NetworkUpgrade::Nu6_1 => 3_146_400,
        NetworkUpgrade::Nu6_2 => 3_364_600,
        NetworkUpgrade::Nu6_3 => 3_428_143,
        NetworkUpgrade::Nu7 => 3_543_405,
    }
}

/// The heights at which the upgrades activated, or will, on the test network.
pub open spec fn test_activation(nu: NetworkUpgrade) -> BlockHeight {
    match nu {
        NetworkUpgrade::Overwinter => 207_500,
        NetworkUpgrade::Sapling => 280_000,
        NetworkUpgrade::Blossom => 584_000,
        NetworkUpgrade::Heartwood => 903_800,
        NetworkUpgrade::Canopy => 1_028_500,
        NetworkUpgrade::Nu5 => 1_842_420,
        NetworkUpgrade::Nu6 => 2_976_000,
        NetworkUpgrade::Nu6_1 => 3_536_500,
        NetworkUpgrade::Nu6_2 => 4_052_000,
        NetworkUpgrade::Nu6_3 => 4_134_000,
        NetworkUpgrade::Nu7 => 4_465_026,
    }
}

/// The height at which an upgrade activates on the main network.
///
/// The heights are those of `zcash_protocol::consensus::Network::activation_height` for
/// `MainNetwork`, which knows one for each of these upgrades.
#[verifier::external_body]
fn main_network_activation(nu: NetworkUpgrade) -> (r: Option<BlockHeight>)
    ensures
        r == Some(main_activation(nu)),
{
    ProtocolNetwork::MainNetwork.activation_height(match nu {
        NetworkUpgrade::Overwinter => ProtocolUpgrade::Overwinter,
        NetworkUpgrade::Sapling => ProtocolUpgrade::Sapling,
        NetworkUpgrade::Blossom => ProtocolUpgrade::Blossom,
        NetworkUpgrade::Heartwood => ProtocolUpgrade::Heartwood,
        NetworkUpgrade::Canopy => ProtocolUpgrade::Canopy,
        NetworkUpgrade::Nu5 => ProtocolUpgrade::Nu5,
        NetworkUpgrade::Nu6 => ProtocolUpgrade::Nu6,
        NetworkUpgrade::Nu6_1 => ProtocolUpgrade::Nu6_1,
        NetworkUpgrade::Nu6_2 => ProtocolUpgrade::Nu6_2,
        NetworkUpgrade::Nu6_3 => ProtocolUpgrade::Nu6_3,
        NetworkUpgrade::Nu7 => ProtocolUpgrade::Nu7,
    }).map(u32::from)
}

/// The height at which an upgrade activates on the test network.
///
/// The heights are those of `zcash_protocol::consensus::Network::activation_height` for
/// `TestNetwork`, which knows one for each of these upgrades.
#[verifier::external_body]
fn test_network_activation(nu: NetworkUpgrade) -> (r: Option<BlockHeight>)
    ensures
        r == Some(test_activation(nu)),
{
    ProtocolNetwork::TestNetwork.activation_height(match nu {
        NetworkUpgrade::Overwinter => ProtocolUpgrade::Overwinter,
        NetworkUpgrade::Sapling => ProtocolUpgrade::Sapling,
        NetworkUpgrade::Blossom => ProtocolUpgrade::Blossom,
        NetworkUpgrade::Heartwood => ProtocolUpgrade::Heartwood,
        NetworkUpgrade::Canopy => ProtocolUpgrade::Canopy,
        NetworkUpgrade::Nu5 => ProtocolUpgrade::Nu5,
        NetworkUpgrade::Nu6 => ProtocolUpgrade::Nu6,
        NetworkUpgrade::Nu6_1 => ProtocolUpgrade::Nu6_1,
        NetworkUpgrade::Nu6_2 => ProtocolUpgrade::Nu6_2,
        NetworkUpgrade::Nu6_3 => ProtocolUpgrade::Nu6_3,
        NetworkUpgrade::Nu7 => ProtocolUpgrade::Nu7,
    }).map(u32::from)
}

impl Params {
    /// The height at which an upgrade activates, where that is known.
    pub open spec fn activation(self, nu: NetworkUpgrade) -> Option<BlockHeight> {
        match nu {
            NetworkUpgrade::Overwinter => self.overwinter,
            NetworkUpgrade::Sapling => self.sapling,
            NetworkUpgrade::Blossom => self.blossom,
            NetworkUpgrade::Heartwood => self.heartwood,
            NetworkUpgrade::Canopy => self.canopy,
            NetworkUpgrade::Nu5 => self.nu5,
            NetworkUpgrade::Nu6 => self.nu6,
            NetworkUpgrade::Nu6_1 => self.nu6_1,
            NetworkUpgrade::Nu6_2 => self.nu6_2,
            NetworkUpgrade::Nu6_3 => self.nu6_3,
            NetworkUpgrade::Nu7 => self.nu7,
        }
    }

    /// Whether an upgrade is in effect at a height.
    pub open spec fn active(self, nu: NetworkUpgrade, height: BlockHeight) -> bool {
        self.activation(nu) matches Some(h) && h <= height
    }

    /// The parameters of the main network.
    pub fn main_network() -> (r: Params)
        ensures
            r.network is Main,
            forall|nu: NetworkUpgrade| r.activation(nu) == Some(main_activation(nu)),
    {
        Params {
            network: NetworkType::Main,
            overwinter: main_network_activation(NetworkUpgrade::Overwinter),
            sapling: main_network_activation(NetworkUpgrade::Sapling),
            blossom: main_network_activation(NetworkUpgrade::Blossom),
            heartwood: main_network_activation(NetworkUpgrade::Heartwood),
            canopy: main_network_activation(NetworkUpgrade::Canopy),
            nu5: main_network_activation(NetworkUpgrade::Nu5),
            nu6: main_network_activation(NetworkUpgrade::Nu6),
            nu6_1: main_network_activation(NetworkUpgrade::Nu6_1),
            nu6_2: main_network_activation(NetworkUpgrade::Nu6_2),
            nu6_3: main_network_activation(NetworkUpgrade::Nu6_3),
            nu7: main_network_activation(NetworkUpgrade::Nu7),
        }
    }

    /// The parameters of the test network.
    pub fn test_network() -> (r: Params)
        ensures
            r.network is Test,
            forall|nu: NetworkUpgrade| r.activation(nu) == Some(test_activation(nu)),
    {
        Params {
            network: NetworkType::Test,
            overwinter: test_network_activation(NetworkUpgrade::Overwinter),
            sapling: test_network_activation(NetworkUpgrade::Sapling),
            blossom: test_network_activation(NetworkUpgrade::Blossom),
            heartwood: test_network_activation(NetworkUpgrade::Heartwood),
            canopy: test_network_activation(NetworkUpgrade::Canopy),
            nu5: test_network_activation(NetworkUpgrade::Nu5),
            nu6: test_network_activation(NetworkUpgrade::Nu6),
            nu6_1: test_network_activation(NetworkUpgrade::Nu6_1),
            nu6_2: test_network_activation(NetworkUpgrade::Nu6_2),
            nu6_3: test_network_activation(NetworkUpgrade::Nu6_3),
            nu7: test_network_activation(NetworkUpgrade::Nu7),
        }
    }

    /// The height at which `nu` activates, where that is known.
    pub fn activation_height(&self, nu: NetworkUpgrade) -> (r: Option<BlockHeight>)
        ensures
            r == self.activation(nu),
    {
        match nu {
            NetworkUpgrade::Overwinter => self.overwinter,
            NetworkUpgrade::Sapling => self.sapling,
            NetworkUpgrade::Blossom => self.blossom,
            NetworkUpgrade::Heartwood => self.heartwood,
            NetworkUpgrade::Canopy => self.canopy,
            NetworkUpgrade::Nu5 => self.nu5,
            NetworkUpgrade::Nu6 => self.nu6,
            NetworkUpgrade::Nu6_1 => self.nu6_1,
            NetworkUpgrade::Nu6_2 => self.nu6_2,
            NetworkUpgrade::Nu6_3 => self.nu6_3,
            NetworkUpgrade::Nu7 => self.nu7,
        }
    }

    /// Whether `nu` is in effect at `height`.
    pub fn is_nu_active(&self, nu: NetworkUpgrade, height: BlockHeight) -> (r: bool)
        ensures
            r == self.active(nu, height),
    {
        match self.activation_height(nu) {
            Some(activation) => activation <= height,
            None => false,
        }
    }

    /// The rules on Sapling note plaintexts at a height.
    pub open spec fn zip212_rule(self, height: BlockHeight) -> Zip212Enforcement {
        match self.canopy {
            Some(canopy) => if height < canopy {
                Zip212Enforcement::Off
            } else if height < canopy + ZIP212_GRACE_PERIOD {
                Zip212Enforcement::GracePeriod
            } else {
                Zip212Enforcement::On
            },
            None => Zip212Enforcement::Off,
        }
    }

    /// The rules on Sapling note plaintexts at `height`: both forms are accepted from Canopy
    /// until the end of the grace period, and only the new one after that.
    pub fn zip212_enforcement(&self, height: BlockHeight) -> (r: Zip212Enforcement)
        ensures
            r == self.zip212_rule(height),
    {
        match self.canopy {
            Some(canopy) => if height < canopy {
                Zip212Enforcement::Off
            } else if height - canopy < ZIP212_GRACE_PERIOD {
                Zip212Enforcement::GracePeriod
            } else {
                Zip212Enforcement::On
            },
            None => Zip212Enforcement::Off,
        }
    }
}

/// An upgrade is in effect from the height of its activation on, and not before; one without such a
/// height never is.
pub proof fn lemma_upgrade_in_effect(params: Params, nu: NetworkUpgrade, height: BlockHeight, r: bool)
    requires
        call_ensures(Params::is_nu_active, (&params, nu, height), r),
    ensures
        match params.activation(nu) {
            Some(activation) => r <==> height >= activation,
            None => !r,
        },
        forall|later: BlockHeight| r && later >= height ==> #[trigger] params.active(nu, later),
{
}

/// Each upgrade has a height of its own in the parameters.
pub proof fn lemma_activations(params: Params)
    ensures
        params.activation(NetworkUpgrade::Sapling) == params.sapling,
        params.activation(NetworkUpgrade::Canopy) == params.canopy,
        params.activation(NetworkUpgrade::Nu5) == params.nu5,
        params.activation(NetworkUpgrade::Nu6_2) == params.nu6_2,
        params.activation(NetworkUpgrade::Nu6_3) == params.nu6_3,
        params.activation(NetworkUpgrade::Nu7) == params.nu7,
{
}

/// Both forms of Sapling note plaintexts are accepted in the 32256 blocks from Canopy on, only the old
/// one before them and only the new one after them.
pub proof fn lemma_zip212_periods(params: Params, height: BlockHeight, r: Zip212Enforcement)
    requires
        call_ensures(Params::zip212_enforcement, (&params, height), r),
    ensures
        match params.canopy {
            Some(canopy) => {
                &&& r is Off <==> height < canopy
                &&& r is GracePeriod <==> canopy <= height < canopy + 32256
                &&& r is On <==> canopy + 32256 <= height
            },
            None => r is Off,
        },
{
}

/// No two branches have the same number, and a branch is found by its number.
pub proof fn lemma_branch_numbers(a: BranchId, b: BranchId, r: u32, found: Option<BranchId>)
    requires
        call_ensures(BranchId::to_u32, (a,), r),
        call_ensures(BranchId::from_u32, (r,), found),
    ensures
        a.code() == b.code() ==> a == b,
        found == Some(a),
        r == 0xc2d6_d0b4 <==> a is Nu5,
        r == 0xc8e7_1055 <==> a is Nu6,
        r == 0x4dec_4df0 <==> a is Nu6_1,
        r == 0x5437_f330 <==> a is Nu6_2,
        r == 0x37a5_165b <==> a is Nu6_3,
        r == 0x7719_0ad9 <==> a is Nu7,
        r == 0xe9ff_75a6 <==> a is Canopy,
        r == 0xf5b9_230b <==> a is Heartwood,
        r == 0x2bb4_0e60 <==> a is Blossom,
        r == 0x76b8_09bb <==> a is Sapling,
        r == 0x5ba8_1b19 <==> a is Overwinter,
        r == 0 <==> a is Sprout,
{
}

} // verus!
