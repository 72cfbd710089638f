//! The change of a transaction whose change goes to a single pool.

use vstd::prelude::*;

use crate::pool::transactional_action_count;
use crate::pool::BundleVersion;
use crate::pool::ShieldedProtocol;
use crate::value::lemma_total_step;
use crate::value::lemma_total_take;
use crate::value::total;
use crate::value::BalanceError;
use crate::value::Zatoshis;
use crate::value::MAX_MONEY;

use super::orchard::BundleView;
use super::orchard::InputView;
use super::orchard::OutputView;
use super::sapling;
use super::ChangeError;
use super::EphemeralBalance;
use super::InputSize;
use super::OutPoint;
use super::StrategyError;
use super::TransparentInput;
use super::TransparentOutput;

verus! {

/// All that fee and change calculation sees of a transaction without its change.
pub struct Shape<N> {
    pub t_in_ids: Seq<OutPoint>,
    pub t_in: Seq<nat>,
    pub t_in_sizes: Seq<InputSize>,
    pub t_out: Seq<nat>,
    pub t_out_sizes: Seq<usize>,
    pub s_type: sapling::BundleType,
    pub s_in_ids: Seq<N>,
    pub s_in: Seq<nat>,
    pub s_out: Seq<nat>,
    pub o_in_ids: Seq<N>,
    pub o_in: Seq<nat>,
    pub o_in_ironwood: Seq<bool>,
    pub o_out: Seq<nat>,
    pub ephemeral: Option<EphemeralBalance>,
}

/// What is seen of the given parts of a transaction.
pub open spec fn shape<N, O: BundleView<N>>(
    transparent_inputs: Seq<TransparentInput>,
    transparent_outputs: Seq<TransparentOutput>,
    sapling: sapling::BundleView<N>,
    orchard: O,
    ephemeral: Option<EphemeralBalance>,
) -> Shape<N> {
    Shape {
        t_in_ids: transparent_inputs.map_values(|i: TransparentInput| i.outpoint),
        t_in: transparent_inputs.map_values(|i: TransparentInput| i.value@),
        t_in_sizes: transparent_inputs.map_values(|i: TransparentInput| i.size),
        t_out: transparent_outputs.map_values(|o: TransparentOutput| o.value@),
        t_out_sizes: transparent_outputs.map_values(|o: TransparentOutput| o.size),
        s_type: sapling.bundle_type,
        s_in_ids: sapling.ids(),
        s_in: sapling.input_worths(),
        s_out: sapling.output_worths(),
        o_in_ids: orchard.input_seq().map_values(|i: O::In| i.id()),
        o_in: orchard.input_seq().map_values(|i: O::In| i.worth()),
        o_in_ironwood: orchard.input_seq().map_values(|i: O::In| i.of_ironwood()),
        o_out: orchard.output_seq().map_values(|o: O::Out| o.worth()),
        ephemeral,
    }
}

/// A number that may be missing, and is then nothing.
pub open spec fn or_zero(n: Option<nat>) -> nat {
    match n {
        Some(n) => n,
        None => 0,
    }
}

/// How many of the flags are set.
pub open spec fn count_set(flags: Seq<bool>) -> nat
    decreases flags.len(),
{
    if flags.len() == 0 {
        0
    } else {
        count_set(flags.drop_last()) + if flags.last() {
            1nat
        } else {
            0
        }
    }
}

impl<N> Shape<N> {
    /// The number of all inputs and outputs.
    pub open spec fn size(self) -> nat {
        self.t_in.len() + self.t_out.len() + self.s_in.len() + self.s_out.len() + self.o_in.len()
            + self.o_out.len()
    }

    /// What goes into the transparent part.
    pub open spec fn t_in_total(self) -> nat {
        total(self.t_in) + or_zero(EphemeralBalance::input(self.ephemeral))
    }

    /// What comes out of the transparent part.
    pub open spec fn t_out_total(self) -> nat {
        total(self.t_out) + or_zero(EphemeralBalance::output(self.ephemeral))
    }

    /// Whether each pool's inputs, and each pool's outputs, come to an amount that can exist.
    pub open spec fn flows_fit(self) -> bool {
        &&& self.t_in_total() <= MAX_MONEY
        &&& self.t_out_total() <= MAX_MONEY
        &&& total(self.s_in) <= MAX_MONEY
        &&& total(self.s_out) <= MAX_MONEY
        &&& total(self.o_in) <= MAX_MONEY
        &&& total(self.o_out) <= MAX_MONEY
    }

    /// What the inputs are worth.
    pub open spec fn total_in(self) -> nat {
        self.t_in_total() + total(self.s_in) + total(self.o_in)
    }

    /// What the outputs are worth.
    pub open spec fn total_out(self) -> nat {
        self.t_out_total() + total(self.s_out) + total(self.o_out)
    }

    /// Whether nothing flows into or out of a shielded pool.
    pub open spec fn is_transparent(self) -> bool {
        total(self.s_in) == 0 && total(self.s_out) == 0 && total(self.o_in) == 0 && total(
            self.o_out,
        ) == 0
    }

    /// The number of notes of the Ironwood pool that are spent.
    pub open spec fn ironwood_inputs(self) -> nat {
        count_set(self.o_in_ironwood)
    }

    /// The number of notes of the Orchard pool that are spent.
    pub open spec fn orchard_inputs(self) -> nat {
        (self.o_in.len() - self.ironwood_inputs()) as nat
    }
}

/// What flows into and out of each part of a transaction.
#[derive(Clone, Copy, Debug, PartialEq, Eq)]
pub struct NetFlows {
    pub t_in: Zatoshis,
    pub t_out: Zatoshis,
    pub sapling_in: Zatoshis,
    pub sapling_out: Zatoshis,
    pub orchard_in: Zatoshis,
    pub orchard_out: Zatoshis,
}

impl NetFlows {
    /// Whether these are the flows of a transaction of the given shape.
    pub open spec fn of<N>(self, shape: Shape<N>) -> bool {
        &&& self.t_in@ == shape.t_in_total()
        &&& self.t_out@ == shape.t_out_total()
        &&& self.sapling_in@ == total(shape.s_in)
        &&& self.sapling_out@ == total(shape.s_out)
        &&& self.orchard_in@ == total(shape.o_in)
        &&& self.orchard_out@ == total(shape.o_out)
    }

    /// What flows in.
    pub fn total_in(&self) -> (r: Result<Zatoshis, BalanceError>)
        ensures
            self.t_in@ + self.sapling_in@ + self.orchard_in@ <= MAX_MONEY ==> (r matches Ok(z)
                && z@ == self.t_in@ + self.sapling_in@ + self.orchard_in@),
            self.t_in@ + self.sapling_in@ + self.orchard_in@ > MAX_MONEY ==> r == Err::<
                Zatoshis,
                BalanceError,
            >(BalanceError::Overflow),
    {
        match self.t_in.checked_plus(self.sapling_in) {
            Some(sum) => match sum.checked_plus(self.orchard_in) {
                Some(sum) => Ok(sum),
                None => Err(BalanceError::Overflow),
            },
            None => Err(BalanceError::Overflow),
        }
    }

    /// What flows out.
    pub fn total_out(&self) -> (r: Result<Zatoshis, BalanceError>)
        ensures
            self.t_out@ + self.sapling_out@ + self.orchard_out@ <= MAX_MONEY ==> (r matches Ok(z)
                && z@ == self.t_out@ + self.sapling_out@ + self.orchard_out@),
            self.t_out@ + self.sapling_out@ + self.orchard_out@ > MAX_MONEY ==> r == Err::<
                Zatoshis,
                BalanceError,
            >(BalanceError::Overflow),
    {
        match self.t_out.checked_plus(self.sapling_out) {
            Some(sum) => match sum.checked_plus(self.orchard_out) {
                Some(sum) => Ok(sum),
                None => Err(BalanceError::Overflow),
            },
            None => Err(BalanceError::Overflow),
        }
    }

    /// Whether the flows, without change, are fully transparent.
    pub fn is_transparent(&self) -> (r: bool)
        ensures
            r == (self.sapling_in@ == 0 && self.sapling_out@ == 0 && self.orchard_in@ == 0
                && self.orchard_out@ == 0),
    {
        !(self.sapling_in.is_positive() || self.sapling_out.is_positive()
            || self.orchard_in.is_positive() || self.orchard_out.is_positive())
    }
}

/// The sum of two amounts, the second of which may be missing.
fn plus_optional(sum: Option<Zatoshis>, extra: Option<Zatoshis>) -> (r: Option<Zatoshis>)
    ensures
        match sum {
            Some(a) => {
                let all = a@ + match extra {
                    Some(b) => b@,
                    None => 0,
                };
                match r {
                    Some(z) => z@ == all && all <= MAX_MONEY,
                    None => all > MAX_MONEY,
                }
            },
            None => r is None,
        },
{
    let extra: Zatoshis = match extra {
        Some(extra) => extra,
        None => Zatoshis::zero(),
    };
    match sum {
        Some(sum) => sum.checked_plus(extra),
        None => None,
    }
}

/// What the inputs of a transparent part are worth together.
fn sum_transparent_inputs(inputs: &[TransparentInput]) -> (r: Option<Zatoshis>)
    ensures
        ({
            let all = total(inputs@.map_values(|i: TransparentInput| i.value@));
            match r {
                Some(z) => z@ == all && all <= MAX_MONEY,
                None => all > MAX_MONEY,
            }
        }),
{
    let ghost worths = inputs@.map_values(|i: TransparentInput| i.value@);
    let mut sum: Zatoshis = Zatoshis::zero();
    let mut i: usize = 0;
    while i < inputs.len()
        invariant
            i <= inputs.len(),
            worths == inputs@.map_values(|i: TransparentInput| i.value@),
            sum@ == total(worths.take(i as int)),
            sum@ <= MAX_MONEY,
        decreases inputs.len() - i,
    {
        proof {
            lemma_total_step(worths, i as int);
            lemma_total_take(worths, i as int + 1);
        }
        match sum.checked_plus(inputs[i].value) {
            Some(next) => {
                sum = next;
            },
            None => {
                return None;
            },
        }
        i = i + 1;
    }
    assert(worths.take(i as int) =~= worths);
    Some(sum)
}

/// What the outputs of a transparent part are worth together.
fn sum_transparent_outputs(outputs: &[TransparentOutput]) -> (r: Option<Zatoshis>)
    ensures
        ({
            let all = total(outputs@.map_values(|o: TransparentOutput| o.value@));
            match r {
                Some(z) => z@ == all && all <= MAX_MONEY,
                None => all > MAX_MONEY,
            }
        }),
{
    let ghost worths = outputs@.map_values(|o: TransparentOutput| o.value@);
    let mut sum: Zatoshis = Zatoshis::zero();
    let mut i: usize = 0;
    while i < outputs.len()
        invariant
            i <= outputs.len(),
            worths == outputs@.map_values(|o: TransparentOutput| o.value@),
            sum@ == total(worths.take(i as int)),
            sum@ <= MAX_MONEY,
        decreases outputs.len() - i,
    {
        proof {
            lemma_total_step(worths, i as int);
            lemma_total_take(worths, i as int + 1);
        }
        match sum.checked_plus(outputs[i].value) {
            Some(next) => {
                sum = next;
            },
            None => {
                return None;
            },
        }
        i = i + 1;
    }
    assert(worths.take(i as int) =~= worths);
    Some(sum)
}

/// What the inputs of a Sapling bundle are worth together.
fn sum_sapling_inputs<N>(inputs: &Vec<sapling::NoteInput<N>>) -> (r: Option<Zatoshis>)
    ensures
        ({
            let all = total(inputs@.map_values(|i: sapling::NoteInput<N>| i.value@));
            match r {
                Some(z) => z@ == all && all <= MAX_MONEY,
                None => all > MAX_MONEY,
            }
        }),
{
    let ghost worths = inputs@.map_values(|i: sapling::NoteInput<N>| i.value@);
    let mut sum: Zatoshis = Zatoshis::zero();
    let mut i: usize = 0;
    while i < inputs.len()
        invariant
            i <= inputs.len(),
            worths == inputs@.map_values(|i: sapling::NoteInput<N>| i.value@),
            sum@ == total(worths.take(i as int)),
            sum@ <= MAX_MONEY,
        decreases inputs.len() - i,
    {
        proof {
            lemma_total_step(worths, i as int);
            lemma_total_take(worths, i as int + 1);
        }
        match sum.checked_plus(inputs[i].value) {
            Some(next) => {
                sum = next;
            },
            None => {
                return None;
            },
        }
        i = i + 1;
    }
    assert(worths.take(i as int) =~= worths);
    Some(sum)
}

/// What the inputs of an Orchard bundle are worth together.
fn sum_orchard_inputs<N, I: InputView<N>>(inputs: &[I]) -> (r: Option<Zatoshis>)
    ensures
        ({
            let all = total(inputs@.map_values(|i: I| i.worth()));
            match r {
                Some(z) => z@ == all && all <= MAX_MONEY,
                None => all > MAX_MONEY,
            }
        }),
{
    let ghost worths = inputs@.map_values(|i: I| i.worth());
    let mut sum: Zatoshis = Zatoshis::zero();
    let mut i: usize = 0;
    while i < inputs.len()
        invariant
            i <= inputs.len(),
            worths == inputs@.map_values(|i: I| i.worth()),
            sum@ == total(worths.take(i as int)),
            sum@ <= MAX_MONEY,
        decreases inputs.len() - i,
    {
        proof {
            lemma_total_step(worths, i as int);
            lemma_total_take(worths, i as int + 1);
        }
        match sum.checked_plus(inputs[i].value()) {
            Some(next) => {
                sum = next;
            },
            None => {
                return None;
            },
        }
        i = i + 1;
    }
    assert(worths.take(i as int) =~= worths);
    Some(sum)
}

/// What some outputs are worth together.
fn sum_outputs<O: OutputView>(outputs: &[O]) -> (r: Option<Zatoshis>)
    ensures
        ({
            let all = total(outputs@.map_values(|o: O| o.worth()));
            match r {
                Some(z) => z@ == all && all <= MAX_MONEY,
                None => all > MAX_MONEY,
            }
        }),
{
    let ghost worths = outputs@.map_values(|o: O| o.worth());
    let mut sum: Zatoshis = Zatoshis::zero();
    let mut i: usize = 0;
    while i < outputs.len()
        invariant
            i <= outputs.len(),
            worths == outputs@.map_values(|o: O| o.worth()),
            sum@ == total(worths.take(i as int)),
            sum@ <= MAX_MONEY,
        decreases outputs.len() - i,
    {
        proof {
            lemma_total_step(worths, i as int);
            lemma_total_take(worths, i as int + 1);
        }
        match sum.checked_plus(outputs[i].value()) {
            Some(next) => {
                sum = next;
            },
            None => {
                return None;
            },
        }
        i = i + 1;
    }
    assert(worths.take(i as int) =~= worths);
    Some(sum)
}

/// Sums up what flows into and out of each part of a transaction. This fails with an overflow if
/// any of the sums is more than can exist, and in no other case.
pub fn calculate_net_flows<NoteRefT, FeeError, O: BundleView<NoteRefT>>(
    transparent_inputs: &[TransparentInput],
    transparent_outputs: &[TransparentOutput],
    sapling: &sapling::BundleView<NoteRefT>,
    orchard: &O,
    ephemeral_balance: Option<EphemeralBalance>,
) -> (r: Result<NetFlows, ChangeError<FeeError, NoteRefT>>)
    ensures
        ({
            let s = shape(
                transparent_inputs@,
                transparent_outputs@,
                *sapling,
                *orchard,
                ephemeral_balance,
            );
            match r {
                Ok(flows) => s.flows_fit() && flows.of(s),
                Err(e) => !s.flows_fit() && e == ChangeError::<FeeError, NoteRefT>::StrategyError(
                    StrategyError::Balance(BalanceError::Overflow),
                ),
            }
        }),
{
    let ephemeral_in: Option<Zatoshis> = match ephemeral_balance {
        Some(b) => b.ephemeral_input_amount(),
        None => None,
    };
    let ephemeral_out: Option<Zatoshis> = match ephemeral_balance {
        Some(b) => b.ephemeral_output_amount(),
        None => None,
    };
    let t_in = plus_optional(sum_transparent_inputs(transparent_inputs), ephemeral_in);
    let t_out = plus_optional(sum_transparent_outputs(transparent_outputs), ephemeral_out);
    let sapling_in = sum_sapling_inputs(&sapling.inputs);
    let sapling_out = sum_outputs(sapling.outputs.as_slice());
    let orchard_in = sum_orchard_inputs(orchard.inputs());
    let orchard_out = sum_outputs(orchard.outputs());
    proof {
        let s = shape(
            transparent_inputs@,
            transparent_outputs@,
            *sapling,
            *orchard,
            ephemeral_balance,
        );
        assert(sapling.outputs@.map_values(|o: Zatoshis| o.worth()) =~= s.s_out);
    }
    match (t_in, t_out, sapling_in, sapling_out, orchard_in, orchard_out) {
        (
            Some(t_in),
            Some(t_out),
            Some(sapling_in),
            Some(sapling_out),
            Some(orchard_in),
            Some(orchard_out),
        ) => Ok(NetFlows { t_in, t_out, sapling_in, sapling_out, orchard_in, orchard_out }),
        _ => Err(ChangeError::StrategyError(StrategyError::Balance(BalanceError::Overflow))),
    }
}

/// How many actions the Orchard bundle and the Ironwood bundle need together.
pub open spec fn joint_actions(
    version: BundleVersion,
    orchard_inputs: nat,
    ironwood_inputs: nat,
    orchard_outputs: nat,
    ironwood_outputs: nat,
) -> nat {
    version.actions_needed(orchard_inputs, orchard_outputs)
        + BundleVersion::IronwoodV3.actions_needed(ironwood_inputs, ironwood_outputs)
}

/// How many actions the Orchard bundle and the Ironwood bundle need together, or why it cannot
/// be said: a number of actions is more than a `usize` can hold.
pub fn orchard_action_count_from_parts<FeeError, NoteRefT>(
    orchard_version: BundleVersion,
    orchard_inputs: usize,
    ironwood_inputs: usize,
    orchard_outputs: usize,
    ironwood_outputs: usize,
) -> (r: Result<usize, ChangeError<FeeError, NoteRefT>>)
    ensures
        r is Ok <==> joint_actions(
            orchard_version,
            orchard_inputs as nat,
            ironwood_inputs as nat,
            orchard_outputs as nat,
            ironwood_outputs as nat,
        ) <= usize::MAX,
        match r {
            Ok(n) => n == joint_actions(
                orchard_version,
                orchard_inputs as nat,
                ironwood_inputs as nat,
                orchard_outputs as nat,
                ironwood_outputs as nat,
            ),
            Err(e) => e matches ChangeError::BundleError(message) && message@ == if
                orchard_version.permits_cross_address() || orchard_inputs + orchard_outputs
                <= usize::MAX {
                "Orchard action count overflowed."@
            } else {
                "num_spends + num_outputs overflowed"@
            },
        },
{
    let orchard_actions: usize = match transactional_action_count(
        orchard_version,
        orchard_inputs,
        orchard_outputs,
    ) {
        Ok(n) => n,
        Err(message) => {
            return Err(ChangeError::BundleError(message));
        },
    };
    let ironwood_actions: usize = match transactional_action_count(
        BundleVersion::IronwoodV3,
        ironwood_inputs,
        ironwood_outputs,
    ) {
        Ok(n) => n,
        Err(message) => {
            return Err(ChangeError::BundleError(message));
        },
    };
    match orchard_actions.checked_add(ironwood_actions) {
        Some(n) => Ok(n),
        None => Err(ChangeError::BundleError("Orchard action count overflowed.")),
    }
}

/// The number of set flags never exceeds the number of flags.
pub proof fn lemma_count_set_bound(flags: Seq<bool>)
    ensures
        count_set(flags) <= flags.len(),
    decreases flags.len(),
{
    if flags.len() > 0 {
        lemma_count_set_bound(flags.drop_last());
    }
}

/// Counts the inputs that are notes of the Ironwood pool.
pub(crate) fn count_ironwood<N, I: InputView<N>>(inputs: &[I]) -> (r: usize)
    ensures
        r == count_set(inputs@.map_values(|i: I| i.of_ironwood())),
        r <= inputs.len(),
{
    let ghost flags = inputs@.map_values(|i: I| i.of_ironwood());
    let mut count: usize = 0;
    let mut i: usize = 0;
    while i < inputs.len()
        invariant
            i <= inputs.len(),
            flags == inputs@.map_values(|i: I| i.of_ironwood()),
            count == count_set(flags.take(i as int)),
            count <= i,
        decreases inputs.len() - i,
    {
        proof {
            assert(flags.take(i as int + 1).drop_last() =~= flags.take(i as int));
        }
        if inputs[i].is_ironwood() {
            count = count + 1;
        }
        i = i + 1;
    }
    assert(flags.take(i as int) =~= flags);
    count
}

/// How many actions the Orchard bundle and the Ironwood bundle need together when the given
/// notes are spent, or why it cannot be said.
pub fn orchard_action_count<NoteRefT, FeeError, O: BundleView<NoteRefT>>(
    orchard_version: BundleVersion,
    orchard: &O,
    orchard_output_count: usize,
    ironwood_output_count: usize,
) -> (r: Result<usize, ChangeError<FeeError, NoteRefT>>)
    ensures
        ({
            let ironwood = count_set(orchard.input_seq().map_values(|i: O::In| i.of_ironwood()));
            let spent = (orchard.input_seq().len() - ironwood) as nat;
            let n = joint_actions(
                orchard_version,
                spent,
                ironwood,
                orchard_output_count as nat,
                ironwood_output_count as nat,
            );
            &&& r is Ok <==> n <= usize::MAX
            &&& match r {
                Ok(count) => count == n,
                Err(e) => e matches ChangeError::BundleError(message) && message@ == if
                    orchard_version.permits_cross_address() || spent + orchard_output_count
                    <= usize::MAX {
                    "Orchard action count overflowed."@
                } else {
                    "num_spends + num_outputs overflowed"@
                },
            }
        }),
{
    let inputs = orchard.inputs();
    let ironwood_inputs: usize = count_ironwood(inputs);
    orchard_action_count_from_parts(
        orchard_version,
        inputs.len() - ironwood_inputs,
        ironwood_inputs,
        orchard_output_count,
        ironwood_output_count,
    )
}

/// The pool that change goes to, if there is any: Orchard if anything flows into or out of
/// Orchard, else Sapling if anything flows into or out of Sapling, else the pool that the caller
/// prefers.
pub open spec fn change_pool_of<N>(shape: Shape<N>, fallback: ShieldedProtocol) -> ShieldedProtocol {
    if total(shape.o_in) > 0 || total(shape.o_out) > 0 {
        ShieldedProtocol::Orchard
    } else if total(shape.s_in) > 0 || total(shape.s_out) > 0 {
        ShieldedProtocol::Sapling
    } else {
        fallback
    }
}

/// Decides which shielded pool change should go to, if there is any.
pub fn select_change_pool(net_flows: &NetFlows, fallback_change_pool: ShieldedProtocol) -> (r:
    ShieldedProtocol)
    ensures
        r == (if net_flows.orchard_in@ > 0 || net_flows.orchard_out@ > 0 {
            ShieldedProtocol::Orchard
        } else if net_flows.sapling_in@ > 0 || net_flows.sapling_out@ > 0 {
            ShieldedProtocol::Sapling
        } else {
            fallback_change_pool
        }),
{
    if net_flows.orchard_in.is_positive() || net_flows.orchard_out.is_positive() {
        ShieldedProtocol::Orchard
    } else if net_flows.sapling_in.is_positive() || net_flows.sapling_out.is_positive() {
        ShieldedProtocol::Sapling
    } else {
        fallback_change_pool
    }
}

/// The number of change outputs in each pool.
#[derive(Clone, Copy, Debug, PartialEq, Eq, Structural)]
pub struct OutputManifest {
    pub transparent: usize,
    pub sapling: usize,
    pub orchard: usize,
    pub ironwood: usize,
}

impl OutputManifest {
    /// No change outputs.
    pub open spec fn none() -> OutputManifest {
        OutputManifest { transparent: 0, sapling: 0, orchard: 0, ironwood: 0 }
    }

    /// The change outputs that all go to one shielded pool.
    pub open spec fn single_pool(
        change_pool: ShieldedProtocol,
        count: usize,
        orchard_outputs_are_ironwood: bool,
    ) -> OutputManifest {
        let orchard = change_pool == ShieldedProtocol::Orchard;
        OutputManifest {
            transparent: 0,
            sapling: if change_pool == ShieldedProtocol::Sapling {
                count
            } else {
                0
            },
            orchard: if orchard && !orchard_outputs_are_ironwood {
                count
            } else {
                0
            },
            ironwood: if orchard && orchard_outputs_are_ironwood {
                count
            } else {
                0
            },
        }
    }

    /// The number of change outputs in all pools.
    pub open spec fn size(self) -> nat {
        (self.transparent + self.sapling + self.orchard + self.ironwood) as nat
    }

    /// No change outputs.
    pub fn zero() -> (r: OutputManifest)
        ensures
            r == Self::none(),
    {
        OutputManifest { transparent: 0, sapling: 0, orchard: 0, ironwood: 0 }
    }

    /// The change outputs that all go to one shielded pool. All of them are shielded outputs,
    /// and change that goes to Orchard goes to exactly one of the two Orchard-shaped pools.
    pub fn shielded_change(
        change_pool: ShieldedProtocol,
        count: usize,
        orchard_outputs_are_ironwood: bool,
    ) -> (r: OutputManifest)
        ensures
            r == Self::single_pool(change_pool, count, orchard_outputs_are_ironwood),
            r.size() == count,
            r.transparent == 0,
    {
        let orchard: bool = change_pool == ShieldedProtocol::Orchard;
        OutputManifest {
            transparent: 0,
            sapling: if change_pool == ShieldedProtocol::Sapling {
                count
            } else {
                0
            },
            orchard: if orchard && !orchard_outputs_are_ironwood {
                count
            } else {
                0
            },
            ironwood: if orchard && orchard_outputs_are_ironwood {
                count
            } else {
                0
            },
        }
    }

    /// The number of change outputs in the Sapling pool.
    pub fn sapling(&self) -> (r: usize)
        ensures
            r == self.sapling,
    {
        self.sapling
    }

    /// The number of change outputs in the Orchard pool.
    pub fn orchard(&self) -> (r: usize)
        ensures
            r == self.orchard,
    {
        self.orchard
    }

    /// The number of change outputs in the Ironwood pool.
    pub fn ironwood(&self) -> (r: usize)
        ensures
            r == self.ironwood,
    {
        self.ironwood
    }

    /// The number of change outputs in all shielded pools.
    pub fn total_shielded(&self) -> (r: usize)
        requires
            self.sapling + self.orchard + self.ironwood <= usize::MAX,
        ensures
            r == self.sapling + self.orchard + self.ironwood,
    {
        self.sapling + self.orchard + self.ironwood
    }
}

} // verus!
