//! The change and the fee that balance a transaction.

use vstd::prelude::*;

use crate::consensus::BlockHeight;
use crate::consensus::NetworkUpgrade;
use crate::consensus::Params;
use crate::pool::BundleVersion;
use crate::pool::ShieldedProtocol;
use crate::value::total;
use crate::value::BalanceError;
use crate::value::Zatoshis;
use crate::value::MAX_MONEY;

use super::balance_laws::given_memo;
use super::balance_laws::memos_are;
use super::common::calculate_net_flows;
use super::common::change_pool_of;
use super::common::count_ironwood;
use super::common::joint_actions;
use super::common::or_zero;
use super::common::orchard_action_count_from_parts;
use super::common::select_change_pool;
use super::common::shape;
use super::common::OutputManifest;
use super::common::Shape;
use super::dust::check_for_uneconomic_inputs;
use super::dust::lemma_joint_actions_bound;
use super::dust::uneconomic_result;
use super::missing_note_count;
use super::missing_notes;
use super::orchard::BundleView;
use super::sapling;
use super::zip317::MINIMUM_FEE;
use super::zip317::P2PKH_STANDARD_INPUT_SIZE;
use super::zip317::P2PKH_STANDARD_OUTPUT_SIZE;
use super::AccountMeta;
use super::amounts;
use super::ChangeError;
use super::ChangeValue;
use super::DustAction;
use super::DustOutputPolicy;
use super::EphemeralBalance;
use super::FeeRule;
use super::InputSize;
use super::MemoBytes;
use super::SplitPolicy;
use super::StrategyError;
use super::TransactionBalance;
use super::TransparentInput;
use super::TransparentOutput;

verus! {

/// How the change of a transaction is to be computed when it goes to a single pool.
pub struct SinglePoolBalanceConfig<'a, F> {
    pub params: &'a Params,
    pub fee_rule: &'a F,
    pub dust_output_policy: &'a DustOutputPolicy,
    pub default_dust_threshold: Zatoshis,
    pub split_policy: &'a SplitPolicy,
    pub fallback_change_pool: ShieldedProtocol,
    pub marginal_fee: Zatoshis,
    pub grace_actions: usize,
    pub force_legacy_orchard_change: bool,
}

impl<'a, F> SinglePoolBalanceConfig<'a, F> {
    /// The configuration that consists of the given parts.
    pub fn new(
        params: &'a Params,
        fee_rule: &'a F,
        dust_output_policy: &'a DustOutputPolicy,
        default_dust_threshold: Zatoshis,
        split_policy: &'a SplitPolicy,
        fallback_change_pool: ShieldedProtocol,
        marginal_fee: Zatoshis,
        grace_actions: usize,
        force_legacy_orchard_change: bool,
    ) -> (r: Self)
        ensures
            r == (SinglePoolBalanceConfig {
                params,
                fee_rule,
                dust_output_policy,
                default_dust_threshold,
                split_policy,
                fallback_change_pool,
                marginal_fee,
                grace_actions,
                force_legacy_orchard_change,
            }),
    {
        SinglePoolBalanceConfig {
            params,
            fee_rule,
            dust_output_policy,
            default_dust_threshold,
            split_policy,
            fallback_change_pool,
            marginal_fee,
            grace_actions,
            force_legacy_orchard_change,
        }
    }
}

impl<N> Shape<N> {
    /// The sizes of all transparent inputs, the ephemeral one among them.
    pub open spec fn all_input_sizes(self) -> Seq<InputSize> {
        if EphemeralBalance::input(self.ephemeral) is Some {
            self.t_in_sizes.push(InputSize::Known(P2PKH_STANDARD_INPUT_SIZE))
        } else {
            self.t_in_sizes
        }
    }

    /// The sizes of all transparent outputs, the ephemeral one among them.
    pub open spec fn all_output_sizes(self) -> Seq<usize> {
        if EphemeralBalance::output(self.ephemeral) is Some {
            self.t_out_sizes.push(P2PKH_STANDARD_OUTPUT_SIZE)
        } else {
            self.t_out_sizes
        }
    }

    /// Whether the Sapling bundle can hold what the transaction puts into it.
    pub open spec fn sapling_possible(self) -> bool {
        self.s_type.spends_needed(self.s_in.len()) is Some
    }

    /// The number of actions with the given change.
    pub open spec fn actions_with(
        self,
        version: BundleVersion,
        orchard_outputs_are_ironwood: bool,
        change: OutputManifest,
    ) -> nat {
        joint_actions(
            version,
            self.orchard_inputs(),
            self.ironwood_inputs(),
            (change.orchard + if orchard_outputs_are_ironwood {
                0
            } else {
                self.o_out.len()
            }) as nat,
            (change.ironwood + if orchard_outputs_are_ironwood {
                self.o_out.len()
            } else {
                0
            }) as nat,
        )
    }
}

/// The parts into which change is divided: all are the same, but for the first, which also takes
/// what is left over.
pub open spec fn split_parts(change: nat, n: nat) -> Seq<nat> {
    Seq::new(
        n,
        |i: int|
            if i == 0 {
                change / n + change % n
            } else {
                change / n
            },
    )
}

/// What the computation of a transaction's change and fee comes to.
pub enum Outcome {
    /// Some amount is more than can exist.
    Overflow,
    /// These inputs are uneconomic, or whether they are cannot be told.
    Uneconomic(Option<(Seq<int>, Seq<int>, Seq<int>)>),
    /// The Sapling bundle cannot hold what it should.
    SaplingImpossible,
    /// The fee rule has no answer for the transaction with this change.
    NoFee(OutputManifest),
    /// The inputs do not suffice.
    Insufficient { available: nat, required: nat },
    /// Shielded change outputs of these values, and this fee, balance the transaction.
    Balanced { parts: Seq<nat>, fee: nat },
}

/// Whether no input is reported as uneconomic.
pub open spec fn all_economic(found: Option<(Seq<int>, Seq<int>, Seq<int>)>) -> bool {
    found matches Some((t, s, o)) && t.len() == 0 && s.len() == 0 && o.len() == 0
}

/// The memo that goes with the change: none in a transaction that spends an ephemeral output,
/// because then it went with the change of the transaction before.
pub open spec fn kept_memo(memo: Option<MemoBytes>, ephemeral: Option<EphemeralBalance>) -> Option<
    MemoBytes,
> {
    if EphemeralBalance::input(ephemeral) is Some {
        None
    } else {
        memo
    }
}

/// The number of parts into which a split policy divides change.
pub open spec fn parts_wanted(policy: SplitPolicy, meta: Option<AccountMeta>, change: nat) -> nat {
    match meta {
        None => 1,
        Some(meta) => match policy.least_part(meta.total_value, change) {
            None => 1,
            Some(least) => choose|n: nat| #[trigger]
                SplitPolicy::is_split(
                    n,
                    missing_notes(policy.target_output_count as nat, meta.total_note_count),
                    least,
                    change,
                ),
        },
    }
}

/// There is only one number of parts into which change is divided.
proof fn lemma_split_unique(a: nat, b: nat, limit: nat, least: nat, change: nat)
    requires
        SplitPolicy::is_split(a, limit, least, change),
        SplitPolicy::is_split(b, limit, least, change),
    ensures
        a == b,
{
    if a < b {
        assert(change / b < least);
    } else if b < a {
        assert(change / a < least);
    }
}

impl<'a, F: FeeRule> SinglePoolBalanceConfig<'a, F> {
    /// Whether outputs to Orchard receivers go to the Ironwood pool.
    pub open spec fn ironwood_outputs(self, height: BlockHeight) -> bool {
        !self.force_legacy_orchard_change && self.params.active(NetworkUpgrade::Nu6_3, height)
    }

    /// The greatest number of change outputs that may be made.
    pub open spec fn target_count(self, meta: Option<AccountMeta>) -> nat {
        match meta {
            None => 1,
            Some(meta) => missing_notes(
                self.split_policy.target_output_count as nat,
                meta.total_note_count,
            ),
        }
    }

    /// The change that consists of `n` outputs.
    pub open spec fn change_of<N>(self, s: Shape<N>, height: BlockHeight, n: nat) -> OutputManifest {
        OutputManifest::single_pool(
            change_pool_of(s, self.fallback_change_pool),
            n as usize,
            self.ironwood_outputs(height),
        )
    }

    /// The fee of the transaction with the given change.
    #[verifier::opaque]
    pub open spec fn fee_with<N>(
        self,
        s: Shape<N>,
        height: BlockHeight,
        change: OutputManifest,
    ) -> Option<nat> {
        self.fee_rule.fee(
            *self.params,
            height,
            s.all_input_sizes(),
            s.all_output_sizes(),
            s.s_type.spends_needed(s.s_in.len())->0,
            s.s_type.outputs_needed(s.s_in.len(), s.s_out.len() + change.sapling as nat)->0,
            s.actions_with(
                BundleVersion::orchard_at(*self.params, height),
                self.ironwood_outputs(height),
                change,
            ),
        )
    }

    /// Whether the fee rule may give an error for the transaction with the given change.
    #[verifier::opaque]
    pub open spec fn fee_error_with<N>(
        self,
        s: Shape<N>,
        height: BlockHeight,
        change: OutputManifest,
        error: F::Error,
    ) -> bool {
        self.fee_rule.fee_error(
            *self.params,
            height,
            s.all_input_sizes(),
            s.all_output_sizes(),
            s.s_type.spends_needed(s.s_in.len())->0,
            s.s_type.outputs_needed(s.s_in.len(), s.s_out.len() + change.sapling as nat)->0,
            s.actions_with(
                BundleVersion::orchard_at(*self.params, height),
                self.ironwood_outputs(height),
                change,
            ),
            error,
        )
    }

    /// The changes that the transaction may come to have: none at all where that is possible, and
    /// as many outputs as may be made.
    pub open spec fn possible_change<N>(
        self,
        s: Shape<N>,
        meta: Option<AccountMeta>,
        height: BlockHeight,
        memo: Option<MemoBytes>,
    ) -> Seq<OutputManifest> {
        let target = self.change_of(s, height, self.target_count(meta));
        if memo is None && (s.is_transparent() || self.dust_output_policy.action
            == DustAction::AddDustToFee) {
            seq![OutputManifest::none(), target]
        } else {
            seq![target]
        }
    }

    /// The inputs that are uneconomic, where the marginal fee makes it matter.
    pub open spec fn uneconomic_inputs<N>(
        self,
        s: Shape<N>,
        meta: Option<AccountMeta>,
        height: BlockHeight,
        memo: Option<MemoBytes>,
    ) -> Option<(Seq<int>, Seq<int>, Seq<int>)> {
        if self.marginal_fee@ > 0 {
            s.uneconomic(
                self.marginal_fee@,
                BundleVersion::orchard_at(*self.params, height),
                self.ironwood_outputs(height),
                self.grace_actions,
                self.possible_change(s, meta, height, memo),
            )
        } else {
            Some((Seq::empty(), Seq::empty(), Seq::empty()))
        }
    }

    /// The least change that is worth an output.
    pub open spec fn dust_threshold(self) -> nat {
        match self.dust_output_policy.dust_threshold {
            Some(threshold) => threshold@,
            None => self.default_dust_threshold@,
        }
    }

    /// What becomes of `change` that is left when `fee` is paid for `n` change outputs.
    pub open spec fn settle<N>(
        self,
        s: Shape<N>,
        memo: Option<MemoBytes>,
        n: nat,
        change: nat,
        fee: nat,
    ) -> Outcome {
        let simple = Outcome::Balanced { parts: split_parts(change, n), fee };
        let shortfall = self.dust_threshold() - change;
        if shortfall <= 0 {
            simple
        } else {
            match self.dust_output_policy.action {
                DustAction::AllowDustChange => simple,
                DustAction::Reject => if change == 0 {
                    simple
                } else if s.total_in() + shortfall > MAX_MONEY {
                    Outcome::Overflow
                } else {
                    Outcome::Insufficient {
                        available: s.total_in(),
                        required: (s.total_in() + shortfall) as nat,
                    }
                },
                DustAction::AddDustToFee => if fee + 10 * MINIMUM_FEE > MAX_MONEY {
                    Outcome::Overflow
                } else if change > 10 * MINIMUM_FEE {
                    simple
                } else if memo is Some {
                    Outcome::Balanced { parts: seq![0], fee: change + fee }
                } else {
                    Outcome::Balanced { parts: Seq::empty(), fee: change + fee }
                },
            }
        }
    }

    /// What a transaction with change comes to, when its fee is at least `min_fee`. The fee is
    /// that of as many change outputs as may be made, or of fewer if the change is not worth
    /// dividing into so many.
    #[verifier::opaque]
    pub open spec fn with_change<N>(
        self,
        s: Shape<N>,
        meta: Option<AccountMeta>,
        height: BlockHeight,
        memo: Option<MemoBytes>,
        min_fee: nat,
    ) -> Outcome {
        let target = self.target_count(meta);
        match self.fee_with(s, height, self.change_of(s, height, target)) {
            None => Outcome::NoFee(self.change_of(s, height, target)),
            Some(target_fee) => {
                let max_fee = if target_fee >= min_fee {
                    target_fee
                } else {
                    min_fee
                };
                let left = s.total_in() - s.total_out() - max_fee;
                let n = parts_wanted(
                    *self.split_policy,
                    meta,
                    if left > 0 {
                        left as nat
                    } else {
                        0
                    },
                );
                if s.total_out() + max_fee > MAX_MONEY {
                    Outcome::Overflow
                } else {
                    let total_fee = if n < target {
                        self.fee_with(s, height, self.change_of(s, height, n))
                    } else {
                        Some(max_fee)
                    };
                    match total_fee {
                        None => Outcome::NoFee(self.change_of(s, height, n)),
                        Some(fee) => if s.total_out() + fee > MAX_MONEY {
                            Outcome::Overflow
                        } else if s.total_in() < s.total_out() + fee {
                            Outcome::Insufficient {
                                available: s.total_in(),
                                required: s.total_out() + fee,
                            }
                        } else {
                            self.settle(
                                s,
                                memo,
                                n,
                                (s.total_in() - s.total_out() - fee) as nat,
                                fee,
                            )
                        },
                    }
                }
            },
        }
    }

    /// What the computation of a transaction's change and fee comes to. `memo` is the memo that
    /// goes with the change.
    pub open spec fn outcome<N>(
        self,
        s: Shape<N>,
        meta: Option<AccountMeta>,
        height: BlockHeight,
        memo: Option<MemoBytes>,
    ) -> Outcome {
        if !s.flows_fit() {
            Outcome::Overflow
        } else if !all_economic(self.uneconomic_inputs(s, meta, height, memo)) {
            Outcome::Uneconomic(self.uneconomic_inputs(s, meta, height, memo))
        } else if s.total_in() > MAX_MONEY || s.total_out() > MAX_MONEY {
            Outcome::Overflow
        } else if !s.sapling_possible() {
            Outcome::SaplingImpossible
        } else {
            match self.fee_with(s, height, OutputManifest::none()) {
                None => Outcome::NoFee(OutputManifest::none()),
                Some(min_fee) => if s.total_out() + min_fee > MAX_MONEY {
                    Outcome::Overflow
                } else if s.total_in() < s.total_out() + min_fee {
                    Outcome::Insufficient {
                        available: s.total_in(),
                        required: s.total_out() + min_fee,
                    }
                } else if s.total_in() == s.total_out() + min_fee && s.is_transparent()
                    && memo is None {
                    Outcome::Balanced { parts: Seq::empty(), fee: min_fee }
                } else {
                    self.with_change(s, meta, height, memo, min_fee)
                },
            }
        }
    }

    /// Whether `r` says what the computation comes to.
    pub open spec fn reports<N: Clone>(
        self,
        r: Result<TransactionBalance, ChangeError<F::Error, N>>,
        outcome: Outcome,
        s: Shape<N>,
        height: BlockHeight,
        memo: Option<MemoBytes>,
    ) -> bool {
        match outcome {
            Outcome::Overflow => r matches Err(
                ChangeError::StrategyError(StrategyError::Balance(BalanceError::Overflow)),
            ),
            Outcome::Uneconomic(found) => r matches Err(e) && uneconomic_result(
                Err::<(), ChangeError<F::Error, N>>(e),
                s,
                found,
            ),
            Outcome::SaplingImpossible => r matches Err(ChangeError::BundleError(message))
                && message@ == "Spends not allowed in coinbase bundles"@,
            Outcome::NoFee(change) => r matches Err(
                ChangeError::StrategyError(StrategyError::Fee(e)),
            ) && self.fee_error_with(s, height, change, e),
            Outcome::Insufficient { available, required } => r matches Err(
                ChangeError::InsufficientFunds { available: a, required: b },
            ) && a@ == available && b@ == required,
            Outcome::Balanced { parts, fee } => r matches Ok(balance) && balance.fee() == fee
                && is_change(
                balance.change(),
                change_pool_of(s, self.fallback_change_pool),
                parts,
                memo,
                EphemeralBalance::output(s.ephemeral),
            ),
        }
    }
}

/// Whether `change` consists of shielded outputs of the given values to the given pool, each with
/// the memo, and of the ephemeral output if there is one.
pub open spec fn is_change(
    change: Seq<ChangeValue>,
    pool: ShieldedProtocol,
    parts: Seq<nat>,
    memo: Option<MemoBytes>,
    ephemeral_output: Option<nat>,
) -> bool {
    &&& change.len() == parts.len() + match ephemeral_output {
        Some(_) => 1nat,
        None => 0,
    }
    &&& forall|i: int|
        0 <= i < parts.len() ==> (#[trigger] change[i] matches ChangeValue::Shielded {
            protocol,
            value,
            memo: m,
        } && protocol == pool && value@ == parts[i] && m == memo)
    &&& ephemeral_output matches Some(e) ==> (change.last()
        matches ChangeValue::EphemeralTransparent { value } && value@ == e)
}

/// What the fee rule is told about a transaction without its change.
struct Measured {
    input_sizes: Vec<InputSize>,
    output_sizes: Vec<usize>,
    s_type: sapling::BundleType,
    s_inputs: usize,
    s_outputs: usize,
    s_spend_count: usize,
    version: BundleVersion,
    orchard_outputs_are_ironwood: bool,
    orchard_inputs: usize,
    ironwood_inputs: usize,
    o_outputs: usize,
}

impl Measured {
    /// Whether this is what there is to tell about the transaction.
    spec fn of<N>(self, s: Shape<N>, version: BundleVersion, orchard_outputs_are_ironwood: bool) -> bool {
        &&& self.input_sizes@ == s.all_input_sizes()
        &&& self.output_sizes@ == s.all_output_sizes()
        &&& self.s_type == s.s_type
        &&& self.s_inputs == s.s_in.len()
        &&& self.s_outputs == s.s_out.len()
        &&& s.s_type.spends_needed(s.s_in.len()) == Some(self.s_spend_count as nat)
        &&& self.version == version
        &&& self.orchard_outputs_are_ironwood == orchard_outputs_are_ironwood
        &&& self.orchard_inputs == s.orchard_inputs()
        &&& self.ironwood_inputs == s.ironwood_inputs()
        &&& self.o_outputs == s.o_out.len()
        &&& count_le(s)
    }
}

/// Whether there are no more notes of the Ironwood pool than notes.
spec fn count_le<N>(s: Shape<N>) -> bool {
    s.ironwood_inputs() <= s.o_in.len()
}

/// The sizes of all transparent inputs, the ephemeral one among them.
fn input_sizes(inputs: &[TransparentInput], ephemeral: Option<EphemeralBalance>) -> (r: Vec<InputSize>)
    ensures
        r@ == (if EphemeralBalance::input(ephemeral) is Some {
            inputs@.map_values(|i: TransparentInput| i.size).push(
                InputSize::Known(P2PKH_STANDARD_INPUT_SIZE),
            )
        } else {
            inputs@.map_values(|i: TransparentInput| i.size)
        }),
{
    let mut sizes: Vec<InputSize> = Vec::new();
    let mut i: usize = 0;
    while i < inputs.len()
        invariant
            i <= inputs.len(),
            sizes@ == inputs@.map_values(|i: TransparentInput| i.size).take(i as int),
        decreases inputs.len() - i,
    {
        sizes.push(inputs[i].size);
        i = i + 1;
    }
    assert(sizes@ =~= inputs@.map_values(|i: TransparentInput| i.size));
    if let Some(balance) = ephemeral {
        if balance.is_input() {
            sizes.push(InputSize::Known(P2PKH_STANDARD_INPUT_SIZE));
        }
    }
    sizes
}

/// The sizes of all transparent outputs, the ephemeral one among them.
fn output_sizes(outputs: &[TransparentOutput], ephemeral: Option<EphemeralBalance>) -> (r: Vec<
    usize,
>)
    ensures
        r@ == (if EphemeralBalance::output(ephemeral) is Some {
            outputs@.map_values(|o: TransparentOutput| o.size).push(P2PKH_STANDARD_OUTPUT_SIZE)
        } else {
            outputs@.map_values(|o: TransparentOutput| o.size)
        }),
{
    let mut sizes: Vec<usize> = Vec::new();
    let mut i: usize = 0;
    while i < outputs.len()
        invariant
            i <= outputs.len(),
            sizes@ == outputs@.map_values(|o: TransparentOutput| o.size).take(i as int),
        decreases outputs.len() - i,
    {
        sizes.push(outputs[i].size);
        i = i + 1;
    }
    assert(sizes@ =~= outputs@.map_values(|o: TransparentOutput| o.size));
    if let Some(balance) = ephemeral {
        if balance.is_output() {
            sizes.push(P2PKH_STANDARD_OUTPUT_SIZE);
        }
    }
    sizes
}

/// The fee of the transaction with the given change.
fn fee_for<N, F: FeeRule>(
    cfg: &SinglePoolBalanceConfig<F>,
    height: BlockHeight,
    measured: &Measured,
    change: &OutputManifest,
    Ghost(s): Ghost<Shape<N>>,
) -> (r: Result<Zatoshis, ChangeError<F::Error, N>>)
    requires
        measured.of(
            s,
            BundleVersion::orchard_at(*cfg.params, height),
            cfg.ironwood_outputs(height),
        ),
        s.fits(change.size()),
    ensures
        match r {
            Ok(fee) => cfg.fee_with(s, height, *change) == Some(fee@),
            Err(e) => cfg.fee_with(s, height, *change) is None && (e matches
                ChangeError::StrategyError(StrategyError::Fee(e)) && cfg.fee_error_with(
                s,
                height,
                *change,
                e,
            )),
        },
{
    proof {
        reveal(SinglePoolBalanceConfig::fee_with);
        reveal(SinglePoolBalanceConfig::fee_error_with);
    }
    let s_output_count: usize = match measured.s_type.num_outputs(
        measured.s_inputs,
        measured.s_outputs + change.sapling,
    ) {
        Ok(n) => n,
        Err(_) => {
            assert(false);
            0
        },
    };
    let orchard_outputs: usize = change.orchard + if measured.orchard_outputs_are_ironwood {
        0
    } else {
        measured.o_outputs
    };
    let ironwood_outputs: usize = change.ironwood + if measured.orchard_outputs_are_ironwood {
        measured.o_outputs
    } else {
        0
    };
    proof {
        lemma_joint_actions_bound(
            measured.version,
            measured.orchard_inputs as nat,
            measured.ironwood_inputs as nat,
            orchard_outputs as nat,
            ironwood_outputs as nat,
        );
    }
    let counted: Result<usize, ChangeError<F::Error, N>> = orchard_action_count_from_parts(
        measured.version,
        measured.orchard_inputs,
        measured.ironwood_inputs,
        orchard_outputs,
        ironwood_outputs,
    );
    let actions: usize = match counted {
        Ok(n) => n,
        Err(_) => {
            assert(false);
            0
        },
    };
    let fee = cfg.fee_rule.fee_required(
        cfg.params,
        height,
        measured.input_sizes.as_slice(),
        measured.output_sizes.as_slice(),
        measured.s_spend_count,
        s_output_count,
        actions,
    );
    match fee {
        Ok(fee) => Ok(fee),
        Err(e) => Err(ChangeError::StrategyError(StrategyError::Fee(e))),
    }
}

/// Shielded change outputs to one pool that divide `change` into `n` parts.
fn divide_change(
    pool: ShieldedProtocol,
    change: Zatoshis,
    n: usize,
    memo: Option<MemoBytes>,
) -> (r: Vec<ChangeValue>)
    requires
        n > 0,
    ensures
        is_change(r@, pool, split_parts(change@, n as nat), memo, None),
{
    let parts = change.div_with_remainder(n as u64);
    let _whole: u64 = change.into_u64();
    proof {
        let c = change@ as int;
        let d = n as int;
        assert(c / d + c % d <= c) by (nonlinear_arith)
            requires
                c >= 0,
                d > 0,
        ;
    }
    let first: Zatoshis = match parts.quotient.checked_plus(parts.remainder) {
        Some(first) => first,
        None => {
            assert(false);
            parts.quotient
        },
    };
    let mut outputs: Vec<ChangeValue> = Vec::new();
    let mut i: usize = 0;
    while i < n
        invariant
            i <= n,
            outputs@.len() == i,
            first@ == change@ / (n as nat) + change@ % (n as nat),
            parts.quotient@ == change@ / (n as nat),
            forall|k: int|
                0 <= k < i ==> (#[trigger] outputs@[k] matches ChangeValue::Shielded {
                    protocol,
                    value,
                    memo: m,
                } && protocol == pool && value@ == split_parts(change@, n as nat)[k] && m == memo),
        decreases n - i,
    {
        let value: Zatoshis = if i == 0 {
            first
        } else {
            parts.quotient
        };
        outputs.push(ChangeValue::shielded(pool, value, memo));
        i = i + 1;
    }
    outputs
}

/// The first of the parts that change is divided into come to their share of it.
proof fn lemma_split_prefix(change: nat, n: nat, k: nat)
    requires
        1 <= k <= n,
    ensures
        total(split_parts(change, n).take(k as int)) == change % n + k * (change / n),
    decreases k,
{
    let parts = split_parts(change, n);
    assert(parts.take(k as int).drop_last() =~= parts.take(k - 1));
    let q = (change / n) as int;
    if k == 1 {
        assert(total(parts.take(0)) == 0);
        assert(k * q == q) by (nonlinear_arith)
            requires
                k == 1,
        ;
    } else {
        lemma_split_prefix(change, n, (k - 1) as nat);
        assert((k - 1) * q + q == k * q) by (nonlinear_arith);
    }
}

/// Dividing change loses nothing: the parts come to the whole again.
pub proof fn lemma_split_total(change: nat, n: nat)
    requires
        n >= 1,
    ensures
        total(split_parts(change, n)) == change,
{
    lemma_split_prefix(change, n, n);
    assert(split_parts(change, n).take(n as int) =~= split_parts(change, n));
    assert(change % n + n * (change / n) == change) by (nonlinear_arith)
        requires
            n >= 1,
    ;
}

/// The change outputs come to the values of the shielded ones and of the ephemeral one.
pub proof fn lemma_change_total(
    change: Seq<ChangeValue>,
    pool: ShieldedProtocol,
    parts: Seq<nat>,
    memo: Option<MemoBytes>,
    ephemeral_output: Option<nat>,
)
    requires
        is_change(change, pool, parts, memo, ephemeral_output),
    ensures
        total(amounts(change)) == total(parts) + or_zero(ephemeral_output),
{
    match ephemeral_output {
        Some(e) => {
            assert(amounts(change).drop_last() =~= parts);
            assert(amounts(change).last() == e);
        },
        None => {
            assert(amounts(change) =~= parts);
        },
    }
}

/// What a balance consists of comes to what is left of the inputs when all other outputs are
/// paid: nothing is lost and nothing is created.
pub proof fn lemma_outcome_conserves<N, F: FeeRule>(
    cfg: SinglePoolBalanceConfig<F>,
    s: Shape<N>,
    meta: Option<AccountMeta>,
    height: BlockHeight,
    memo: Option<MemoBytes>,
)
    requires
        cfg.split_policy.wf(),
    ensures
        cfg.outcome(s, meta, height, memo) matches Outcome::Balanced { parts, fee }
            ==> s.total_in() == s.total_out() + total(parts) + fee,
{
    reveal(SinglePoolBalanceConfig::with_change);
    if let Some(min_fee) = cfg.fee_with(s, height, OutputManifest::none()) {
        if let Some(target_fee) = cfg.fee_with(
            s,
            height,
            cfg.change_of(s, height, cfg.target_count(meta)),
        ) {
            let max_fee = if target_fee >= min_fee {
                target_fee
            } else {
                min_fee
            };
            let left = s.total_in() - s.total_out() - max_fee;
            let capped = if left > 0 {
                left as nat
            } else {
                0
            };
            let n = parts_wanted(*cfg.split_policy, meta, capped);
            lemma_parts_wanted(*cfg.split_policy, meta, capped);
            let fee = if n < cfg.target_count(meta) {
                cfg.fee_with(s, height, cfg.change_of(s, height, n))
            } else {
                Some(max_fee)
            };
            if let Some(fee) = fee {
                lemma_split_total((s.total_in() - s.total_out() - fee) as nat, n);
            }
        }
    }
    assert(total(seq![0nat]) == 0) by {
        assert(seq![0nat].drop_last() =~= Seq::<nat>::empty());
        assert(total(Seq::<nat>::empty()) == 0);
    }
    assert(total(Seq::<nat>::empty()) == 0);
}

/// A transaction that has a change memo, or shielded flows and a policy other than adding dust to
/// the fee, has a shielded change output, even where nothing is left to return.
pub proof fn lemma_change_output_present<N, F: FeeRule>(
    cfg: SinglePoolBalanceConfig<F>,
    s: Shape<N>,
    meta: Option<AccountMeta>,
    height: BlockHeight,
    memo: Option<MemoBytes>,
)
    requires
        cfg.split_policy.wf(),
        memo is Some || (!s.is_transparent() && cfg.dust_output_policy.action
            != DustAction::AddDustToFee),
    ensures
        cfg.outcome(s, meta, height, memo) matches Outcome::Balanced { parts, .. } ==> parts.len()
            >= 1,
{
    reveal(SinglePoolBalanceConfig::with_change);
    lemma_any_parts_wanted(*cfg.split_policy, meta);
}

/// Under the policy that rejects dust, the shielded change is either nothing at all or at least
/// the dust threshold.
pub proof fn lemma_rejected_dust<N, F: FeeRule>(
    cfg: SinglePoolBalanceConfig<F>,
    s: Shape<N>,
    meta: Option<AccountMeta>,
    height: BlockHeight,
    memo: Option<MemoBytes>,
)
    requires
        cfg.split_policy.wf(),
        cfg.dust_output_policy.action == DustAction::Reject,
    ensures
        cfg.outcome(s, meta, height, memo) matches Outcome::Balanced { parts, .. } ==> total(parts)
            == 0 || total(parts) >= cfg.dust_threshold(),
{
    reveal(SinglePoolBalanceConfig::with_change);
    lemma_any_parts_wanted(*cfg.split_policy, meta);
    assert forall|change: nat, n: nat| n >= 1 implies total(#[trigger] split_parts(change, n))
        == change by {
        lemma_split_total(change, n);
    }
    assert(total(Seq::<nat>::empty()) == 0);
}

/// Whatever the change, it is divided into at least one part.
proof fn lemma_any_parts_wanted(policy: SplitPolicy, meta: Option<AccountMeta>)
    requires
        policy.wf(),
    ensures
        forall|change: nat| 1 <= #[trigger] parts_wanted(policy, meta, change),
{
    assert forall|change: nat| 1 <= #[trigger] parts_wanted(policy, meta, change) by {
        lemma_parts_wanted(policy, meta, change);
    }
}

/// Change is divided into at least one part, and into no more than notes are missing.
pub proof fn lemma_parts_wanted(policy: SplitPolicy, meta: Option<AccountMeta>, change: nat)
    requires
        policy.wf(),
    ensures
        1 <= parts_wanted(policy, meta, change),
        parts_wanted(policy, meta, change) <= match meta {
            None => 1,
            Some(meta) => missing_notes(policy.target_output_count as nat, meta.total_note_count),
        },
        meta matches Some(m) ==> (policy.least_part(m.total_value, change) matches Some(least)
            ==> SplitPolicy::is_split(
            parts_wanted(policy, meta, change),
            missing_notes(policy.target_output_count as nat, m.total_note_count),
            least,
            change,
        )),
{
    if let Some(m) = meta {
        if let Some(least) = policy.least_part(m.total_value, change) {
            let limit = missing_notes(policy.target_output_count as nat, m.total_note_count);
            let n = lemma_split_exists(limit, limit, least, change);
            assert(SplitPolicy::is_split(n, limit, least, change));
        }
    }
}

/// There is a number of parts into which change is divided.
proof fn lemma_split_exists(n: nat, limit: nat, least: nat, change: nat) -> (r: nat)
    requires
        1 <= n <= limit,
        forall|m: nat| n < m <= limit ==> #[trigger] (change / m) < least,
    ensures
        SplitPolicy::is_split(r, limit, least, change),
    decreases n,
{
    if n == 1 || change / n >= least {
        n
    } else {
        lemma_split_exists((n - 1) as nat, limit, least, change)
    }
}

/// Whether `r` says what the computation of the shielded change comes to.
spec fn settled<N: Clone, F: FeeRule>(
    cfg: &SinglePoolBalanceConfig<F>,
    r: Result<(Vec<ChangeValue>, Zatoshis), ChangeError<F::Error, N>>,
    outcome: Outcome,
    s: Shape<N>,
    height: BlockHeight,
    change_pool: ShieldedProtocol,
    change_memo: Option<MemoBytes>,
) -> bool {
    match r {
        Ok((change, fee)) => outcome matches Outcome::Balanced { parts, fee: f } && fee@ == f
            && is_change(change@, change_pool, parts, change_memo, None),
        Err(e) => !(outcome is Balanced) && cfg.reports(
            Err::<TransactionBalance, ChangeError<F::Error, N>>(e),
            outcome,
            s,
            height,
            change_memo,
        ),
    }
}

/// What becomes of the change that is left when the fee for `split_count` outputs is paid.
fn settle_change<N: Clone, F: FeeRule>(
    cfg: &SinglePoolBalanceConfig<F>,
    height: BlockHeight,
    change_pool: ShieldedProtocol,
    change_memo: Option<MemoBytes>,
    total_in: Zatoshis,
    split_count: usize,
    total_change: Zatoshis,
    total_fee: Zatoshis,
    Ghost(s): Ghost<Shape<N>>,
) -> (r: Result<(Vec<ChangeValue>, Zatoshis), ChangeError<F::Error, N>>)
    requires
        split_count > 0,
        total_in@ == s.total_in(),
        total_change@ + total_fee@ <= total_in@,
    ensures
        settled(
            cfg,
            r,
            cfg.settle(s, change_memo, split_count as nat, total_change@, total_fee@),
            s,
            height,
            change_pool,
            change_memo,
        ),
{
    let change_dust_threshold: Zatoshis = match cfg.dust_output_policy.dust_threshold {
        Some(threshold) => threshold,
        None => cfg.default_dust_threshold,
    };
    if total_change.into_u64() < change_dust_threshold.into_u64() {
        match cfg.dust_output_policy.action {
            DustAction::Reject => {
                if !total_change.is_zero() {
                    let shortfall: Zatoshis = match change_dust_threshold.checked_minus(
                        total_change,
                    ) {
                        Some(shortfall) => shortfall,
                        None => {
                            assert(false);
                            Zatoshis::zero()
                        },
                    };
                    return match total_in.checked_plus(shortfall) {
                        Some(required) => Err(
                            ChangeError::InsufficientFunds { available: total_in, required },
                        ),
                        None => Err(
                            ChangeError::StrategyError(
                                StrategyError::Balance(BalanceError::Overflow),
                            ),
                        ),
                    };
                }
            },
            DustAction::AllowDustChange => {},
            DustAction::AddDustToFee => {
                let fee_with_dust: Zatoshis = match total_change.checked_plus(total_fee) {
                    Some(sum) => sum,
                    None => {
                        let _whole: u64 = total_in.into_u64();
                        assert(false);
                        total_fee
                    },
                };
                let reasonable_fee: Zatoshis = match total_fee.checked_plus(
                    Zatoshis::const_from_u64(MINIMUM_FEE * 10),
                ) {
                    Some(sum) => sum,
                    None => {
                        return Err(
                            ChangeError::StrategyError(
                                StrategyError::Balance(BalanceError::Overflow),
                            ),
                        );
                    },
                };
                if fee_with_dust.into_u64() <= reasonable_fee.into_u64() {
                    let mut change: Vec<ChangeValue> = Vec::new();
                    if change_memo.is_some() {
                        change.push(
                            ChangeValue::shielded(change_pool, Zatoshis::zero(), change_memo),
                        );
                    }
                    return Ok((change, fee_with_dust));
                }
            },
        }
    }
    Ok((divide_change(change_pool, total_change, split_count, change_memo), total_fee))
}

/// The change outputs and the fee of a transaction that has change, when its fee is at least
/// `min_fee`.
#[verifier::rlimit(60)]
fn change_and_fee<N: Clone, F: FeeRule>(
    cfg: &SinglePoolBalanceConfig<F>,
    wallet_meta: Option<&AccountMeta>,
    height: BlockHeight,
    measured: &Measured,
    change_pool: ShieldedProtocol,
    change_memo: Option<MemoBytes>,
    total_in: Zatoshis,
    subtotal_out: Zatoshis,
    min_fee: Zatoshis,
    Ghost(s): Ghost<Shape<N>>,
) -> (r: Result<(Vec<ChangeValue>, Zatoshis), ChangeError<F::Error, N>>)
    requires
        cfg.split_policy.wf(),
        measured.of(
            s,
            BundleVersion::orchard_at(*cfg.params, height),
            cfg.ironwood_outputs(height),
        ),
        s.fits(cfg.split_policy.target_output_count as nat),
        change_pool == change_pool_of(s, cfg.fallback_change_pool),
        total_in@ == s.total_in(),
        subtotal_out@ == s.total_out(),
    ensures
        ({
            let meta = match wallet_meta {
                Some(m) => Some(*m),
                None => None,
            };
            settled(
                cfg,
                r,
                cfg.with_change(s, meta, height, change_memo, min_fee@),
                s,
                height,
                change_pool,
                change_memo,
            )
        }),
{
    let ghost meta = match wallet_meta {
        Some(m) => Some(*m),
        None => None,
    };
    proof {
        reveal(SinglePoolBalanceConfig::with_change);
    }
    let target_change_count: usize = match wallet_meta {
        None => 1,
        Some(m) => missing_note_count(cfg.split_policy.target_output_count, m.total_note_count),
    };
    let target_change_counts = OutputManifest::shielded_change(
        change_pool,
        target_change_count,
        measured.orchard_outputs_are_ironwood,
    );
    let target_fee: Zatoshis = match fee_for(
        cfg,
        height,
        measured,
        &target_change_counts,
        Ghost(s),
    ) {
        Ok(fee) => fee,
        Err(e) => {
            return Err(e);
        },
    };
    let max_fee: Zatoshis = if target_fee.into_u64() >= min_fee.into_u64() {
        target_fee
    } else {
        min_fee
    };
    let total_out_with_max_fee: Zatoshis = match subtotal_out.checked_plus(max_fee) {
        Some(sum) => sum,
        None => {
            return Err(ChangeError::StrategyError(StrategyError::Balance(BalanceError::Overflow)));
        },
    };
    let left: Zatoshis = match total_in.checked_minus(total_out_with_max_fee) {
        Some(left) => left,
        None => Zatoshis::zero(),
    };
    let split_count: usize = match wallet_meta {
        None => 1,
        Some(m) => cfg.split_policy.split_count(m.total_note_count, m.total_value, left),
    };
    proof {
        lemma_parts_wanted(*cfg.split_policy, meta, left@);
        if let Some(m) = meta {
            if let Some(least) = cfg.split_policy.least_part(m.total_value, left@) {
                lemma_split_unique(
                    split_count as nat,
                    parts_wanted(*cfg.split_policy, meta, left@),
                    missing_notes(
                        cfg.split_policy.target_output_count as nat,
                        m.total_note_count,
                    ),
                    least,
                    left@,
                );
            }
        }
        assert(split_count == parts_wanted(*cfg.split_policy, meta, left@));
    }
    let total_fee: Zatoshis = if split_count < target_change_count {
        let split_change_counts = OutputManifest::shielded_change(
            change_pool,
            split_count,
            measured.orchard_outputs_are_ironwood,
        );
        match fee_for(cfg, height, measured, &split_change_counts, Ghost(s)) {
            Ok(fee) => fee,
            Err(e) => {
                return Err(e);
            },
        }
    } else {
        max_fee
    };
    let total_out: Zatoshis = match subtotal_out.checked_plus(total_fee) {
        Some(sum) => sum,
        None => {
            return Err(ChangeError::StrategyError(StrategyError::Balance(BalanceError::Overflow)));
        },
    };
    let total_change: Zatoshis = match total_in.checked_minus(total_out) {
        Some(change) => change,
        None => {
            return Err(ChangeError::InsufficientFunds { available: total_in, required: total_out });
        },
    };
    settle_change(
        cfg,
        height,
        change_pool,
        change_memo,
        total_in,
        split_count,
        total_change,
        total_fee,
        Ghost(s),
    )
}

/// Checks that no input is uneconomic, where the marginal fee makes it matter.
fn check_economic<NoteRefT: Clone, F: FeeRule, O: BundleView<NoteRefT>>(
    cfg: &SinglePoolBalanceConfig<F>,
    wallet_meta: Option<&AccountMeta>,
    target_height: BlockHeight,
    transparent_inputs: &[TransparentInput],
    transparent_outputs: &[TransparentOutput],
    sapling: &sapling::BundleView<NoteRefT>,
    orchard: &O,
    memo: Option<MemoBytes>,
    ephemeral_balance: Option<EphemeralBalance>,
    change_pool: ShieldedProtocol,
    transparent_flows: bool,
) -> (r: Result<(), ChangeError<F::Error, NoteRefT>>)
    requires
        cfg.split_policy.wf(),
        ({
            let s = shape(
                transparent_inputs@,
                transparent_outputs@,
                *sapling,
                *orchard,
                ephemeral_balance,
            );
            &&& s.fits(cfg.split_policy.target_output_count as nat)
            &&& change_pool == change_pool_of(s, cfg.fallback_change_pool)
            &&& transparent_flows == s.is_transparent()
        }),
    ensures
        ({
            let s = shape(
                transparent_inputs@,
                transparent_outputs@,
                *sapling,
                *orchard,
                ephemeral_balance,
            );
            let meta = match wallet_meta {
                Some(m) => Some(*m),
                None => None,
            };
            let found = cfg.uneconomic_inputs(s, meta, target_height, memo);
            &&& r is Ok <==> all_economic(found)
            &&& uneconomic_result(r, s, found)
        }),
{
    let ghost s = shape(
        transparent_inputs@,
        transparent_outputs@,
        *sapling,
        *orchard,
        ephemeral_balance,
    );
    let ghost meta = match wallet_meta {
        Some(m) => Some(*m),
        None => None,
    };
    if !cfg.marginal_fee.is_positive() {
        return Ok(());
    }
    let orchard_outputs_are_ironwood: bool = !cfg.force_legacy_orchard_change
        && cfg.params.is_nu_active(NetworkUpgrade::Nu6_3, target_height);
    let target_change_count: usize = match wallet_meta {
        None => 1,
        Some(m) => missing_note_count(cfg.split_policy.target_output_count, m.total_note_count),
    };
    let target_change_counts = OutputManifest::shielded_change(
        change_pool,
        target_change_count,
        orchard_outputs_are_ironwood,
    );
    // These are the cases in which there may be no change output.
    let mut possible_change: Vec<OutputManifest> = Vec::new();
    if memo.is_none() && (transparent_flows || cfg.dust_output_policy.action
        == DustAction::AddDustToFee) {
        possible_change.push(OutputManifest::zero());
    }
    possible_change.push(target_change_counts);
    assert(possible_change@ =~= cfg.possible_change(s, meta, target_height, memo));
    check_for_uneconomic_inputs(
        transparent_inputs,
        transparent_outputs,
        sapling,
        orchard,
        BundleVersion::orchard_for_height(cfg.params, target_height),
        orchard_outputs_are_ironwood,
        cfg.marginal_fee,
        cfg.grace_actions,
        possible_change.as_slice(),
        ephemeral_balance,
    )
}

/// The balance of a transaction whose inputs are all economic.
fn balance_measured<NoteRefT: Clone, F: FeeRule>(
    cfg: &SinglePoolBalanceConfig<F>,
    wallet_meta: Option<&AccountMeta>,
    target_height: BlockHeight,
    measured: &Measured,
    change_pool: ShieldedProtocol,
    memo: Option<MemoBytes>,
    ephemeral_balance: Option<EphemeralBalance>,
    transparent_flows: bool,
    total_in: Zatoshis,
    subtotal_out: Zatoshis,
    Ghost(s): Ghost<Shape<NoteRefT>>,
) -> (r: Result<TransactionBalance, ChangeError<F::Error, NoteRefT>>)
    requires
        cfg.split_policy.wf(),
        s.fits(cfg.split_policy.target_output_count as nat),
        s.ephemeral == ephemeral_balance,
        s.flows_fit(),
        measured.of(
            s,
            BundleVersion::orchard_at(*cfg.params, target_height),
            cfg.ironwood_outputs(target_height),
        ),
        change_pool == change_pool_of(s, cfg.fallback_change_pool),
        transparent_flows == s.is_transparent(),
        total_in@ == s.total_in(),
        subtotal_out@ == s.total_out(),
        ({
            let meta = match wallet_meta {
                Some(m) => Some(*m),
                None => None,
            };
            all_economic(cfg.uneconomic_inputs(s, meta, target_height, memo))
        }),
    ensures
        ({
            let meta = match wallet_meta {
                Some(m) => Some(*m),
                None => None,
            };
            &&& cfg.reports(
                r,
                cfg.outcome(s, meta, target_height, memo),
                s,
                target_height,
                memo,
            )
            &&& r matches Ok(balance) ==> s.total_in() + or_zero(
                EphemeralBalance::output(ephemeral_balance),
            ) == s.total_out() + balance.sum()
        }),
{
    let ghost meta = match wallet_meta {
        Some(m) => Some(*m),
        None => None,
    };
    let _whole_in: u64 = total_in.into_u64();
    let _whole_out: u64 = subtotal_out.into_u64();
    let min_fee: Zatoshis = match fee_for(
        cfg,
        target_height,
        measured,
        &OutputManifest::zero(),
        Ghost(s),
    ) {
        Ok(fee) => fee,
        Err(e) => {
            return Err(e);
        },
    };
    let total_out_with_min_fee: Zatoshis = match subtotal_out.checked_plus(min_fee) {
        Some(sum) => sum,
        None => {
            return Err(ChangeError::StrategyError(StrategyError::Balance(BalanceError::Overflow)));
        },
    };
    if total_in.into_u64() < total_out_with_min_fee.into_u64() {
        // There is no way to make the transaction.
        return Err(
            ChangeError::InsufficientFunds {
                available: total_in,
                required: total_out_with_min_fee,
            },
        );
    }
    // A transaction is not fully transparent if a change memo is used.
    let (change, fee): (Vec<ChangeValue>, Zatoshis) = if total_in.into_u64()
        == total_out_with_min_fee.into_u64() && transparent_flows && memo.is_none() {
        (Vec::new(), min_fee)
    } else {
        // A transaction with shielded flows has a change output even if it is worth nothing, so
        // that whether the inputs matched exactly is not to be seen, and so that there is always
        // an output that the memo can go with.
        match change_and_fee(
            cfg,
            wallet_meta,
            target_height,
            measured,
            change_pool,
            memo,
            total_in,
            subtotal_out,
            min_fee,
            Ghost(s),
        ) {
            Ok(change_and_fee) => change_and_fee,
            Err(e) => {
                return Err(e);
            },
        }
    };
    let ghost parts = cfg.outcome(s, meta, target_height, memo)->parts;
    let mut change: Vec<ChangeValue> = change;
    assert(is_change(change@, change_pool, parts, memo, None));
    if let Some(EphemeralBalance::Output(value)) = ephemeral_balance {
        change.push(ChangeValue::ephemeral_transparent(value));
    }
    proof {
        lemma_change_total(
            change@,
            change_pool,
            parts,
            memo,
            EphemeralBalance::output(ephemeral_balance),
        );
        lemma_outcome_conserves(*cfg, s, meta, target_height, memo);
    }
    match TransactionBalance::new(change, fee) {
        Ok(balance) => Ok(balance),
        Err(_) => Err(ChangeError::StrategyError(StrategyError::Balance(BalanceError::Overflow))),
    }
}

/// Computes the change and the fee that balance a transaction whose change goes to a single pool.
///
/// The change goes to Orchard if anything else flows into or out of Orchard, and then to the
/// Ironwood pool if NU6.3 is in effect and the configuration does not force the former pool. It is
/// divided as the split policy asks for, and dust is treated as the dust policy asks for.
pub fn single_pool_output_balance<NoteRefT: Clone, F: FeeRule, O: BundleView<NoteRefT>>(
    cfg: SinglePoolBalanceConfig<F>,
    wallet_meta: Option<&AccountMeta>,
    target_height: BlockHeight,
    transparent_inputs: &[TransparentInput],
    transparent_outputs: &[TransparentOutput],
    sapling: &sapling::BundleView<NoteRefT>,
    orchard: &O,
    change_memo: Option<&MemoBytes>,
    ephemeral_balance: Option<EphemeralBalance>,
) -> (r: Result<TransactionBalance, ChangeError<F::Error, NoteRefT>>)
    requires
        cfg.split_policy.wf(),
        shape(
            transparent_inputs@,
            transparent_outputs@,
            *sapling,
            *orchard,
            ephemeral_balance,
        ).fits(cfg.split_policy.target_output_count as nat),
    ensures
        ({
            let s = shape(
                transparent_inputs@,
                transparent_outputs@,
                *sapling,
                *orchard,
                ephemeral_balance,
            );
            let meta = match wallet_meta {
                Some(m) => Some(*m),
                None => None,
            };
            let memo = kept_memo(
                match change_memo {
                    Some(m) => Some(*m),
                    None => None,
                },
                ephemeral_balance,
            );
            &&& cfg.reports(
                r,
                cfg.outcome(s, meta, target_height, memo),
                s,
                target_height,
                memo,
            )
            &&& r matches Ok(balance) ==> s.total_in() + or_zero(
                EphemeralBalance::output(ephemeral_balance),
            ) == s.total_out() + balance.sum()
        }),
        ephemeral_balance matches Some(EphemeralBalance::Input(_)) ==> (r matches Ok(balance)
            ==> memos_are(balance.change(), None)),
        !(ephemeral_balance matches Some(EphemeralBalance::Input(_))) ==> (r matches Ok(balance)
            ==> memos_are(balance.change(), given_memo(change_memo))),
{
    let ghost s = shape(
        transparent_inputs@,
        transparent_outputs@,
        *sapling,
        *orchard,
        ephemeral_balance,
    );
    let ghost meta = match wallet_meta {
        Some(m) => Some(*m),
        None => None,
    };
    let memo: Option<MemoBytes> = match ephemeral_balance {
        Some(EphemeralBalance::Input(_)) => None,
        _ => match change_memo {
            Some(memo) => Some(*memo),
            None => None,
        },
    };
    let net_flows = match calculate_net_flows(
        transparent_inputs,
        transparent_outputs,
        sapling,
        orchard,
        ephemeral_balance,
    ) {
        Ok(flows) => flows,
        Err(e) => {
            return Err(e);
        },
    };
    let change_pool = select_change_pool(&net_flows, cfg.fallback_change_pool);
    let transparent_flows: bool = net_flows.is_transparent();
    if let Err(e) = check_economic(
        &cfg,
        wallet_meta,
        target_height,
        transparent_inputs,
        transparent_outputs,
        sapling,
        orchard,
        memo,
        ephemeral_balance,
        change_pool,
        transparent_flows,
    ) {
        return Err(e);
    }
    let total_in: Zatoshis = match net_flows.total_in() {
        Ok(sum) => sum,
        Err(e) => {
            return Err(ChangeError::StrategyError(StrategyError::Balance(e)));
        },
    };
    let subtotal_out: Zatoshis = match net_flows.total_out() {
        Ok(sum) => sum,
        Err(e) => {
            return Err(ChangeError::StrategyError(StrategyError::Balance(e)));
        },
    };
    let s_spend_count: usize = match sapling.bundle_type.num_spends(sapling.inputs.len()) {
        Ok(n) => n,
        Err(message) => {
            return Err(ChangeError::BundleError(message));
        },
    };
    let o_inputs = orchard.inputs();
    let ironwood_inputs: usize = count_ironwood(o_inputs);
    let measured = Measured {
        input_sizes: input_sizes(transparent_inputs, ephemeral_balance),
        output_sizes: output_sizes(transparent_outputs, ephemeral_balance),
        s_type: sapling.bundle_type,
        s_inputs: sapling.inputs.len(),
        s_outputs: sapling.outputs.len(),
        s_spend_count,
        version: BundleVersion::orchard_for_height(cfg.params, target_height),
        orchard_outputs_are_ironwood: !cfg.force_legacy_orchard_change && cfg.params.is_nu_active(
            NetworkUpgrade::Nu6_3,
            target_height,
        ),
        orchard_inputs: o_inputs.len() - ironwood_inputs,
        ironwood_inputs,
        o_outputs: orchard.outputs().len(),
    };
    balance_measured(
        &cfg,
        wallet_meta,
        target_height,
        &measured,
        change_pool,
        memo,
        ephemeral_balance,
        transparent_flows,
        total_in,
        subtotal_out,
        Ghost(s),
    )
}

} // verus!
