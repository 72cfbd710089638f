//! Inputs that are worth less than it costs to spend them.

use vstd::prelude::*;
use vstd::pervasive::cloned;

use crate::pool::BundleVersion;
use crate::value::Zatoshis;

use super::common::count_set;
use super::common::joint_actions;
use super::common::lemma_count_set_bound;
use super::common::orchard_action_count_from_parts;
use super::common::shape;
use super::common::OutputManifest;
use super::common::Shape;
use super::dust_laws::lemma_economic_with_changes;
use super::orchard::BundleView;
use super::orchard::InputView;
use super::sapling;
use super::zip317::greater;
use super::ChangeError;
use super::EphemeralBalance;
use super::OutPoint;
use super::TransparentInput;
use super::TransparentOutput;

verus! {

/// The positions of the inputs that are not worth more than `limit`, in their order.
pub open spec fn dust(worths: Seq<nat>, limit: nat) -> Seq<int>
    decreases worths.len(),
{
    if worths.len() == 0 {
        Seq::empty()
    } else {
        let before = dust(worths.drop_last(), limit);
        if worths.last() <= limit {
            before.push(worths.len() - 1)
        } else {
            before
        }
    }
}

/// What stands at each of the positions.
pub open spec fn pick<T>(items: Seq<T>, at: Seq<int>) -> Seq<T> {
    at.map_values(|i: int| items[i])
}

/// Whether `copies` are clones of what stands at the positions.
pub open spec fn clones_of<T: Clone>(items: Seq<T>, at: Seq<int>, copies: Seq<T>) -> bool {
    &&& copies.len() == at.len()
    &&& forall|k: int| 0 <= k < at.len() ==> cloned(items[at[k]], #[trigger] copies[k])
}

/// The kind of the first note in the list for which there is no room left, when there is room
/// for so many notes of either kind. Notes of the Ironwood pool are marked by `true`.
pub open spec fn first_excess(kinds: Seq<bool>, orchard: nat, ironwood: nat) -> Option<bool>
    decreases kinds.len(),
{
    if kinds.len() == 0 {
        None
    } else if kinds[0] {
        if ironwood == 0 {
            Some(true)
        } else {
            first_excess(kinds.skip(1), orchard, (ironwood - 1) as nat)
        }
    } else if orchard == 0 {
        Some(false)
    } else {
        first_excess(kinds.skip(1), (orchard - 1) as nat, ironwood)
    }
}

/// The notes in the list for which there is no room left, when there is room for so many notes
/// of either kind.
pub open spec fn beyond_allowed(at: Seq<int>, kinds: Seq<bool>, orchard: nat, ironwood: nat) -> Seq<
    int,
>
    decreases at.len(),
{
    if at.len() == 0 {
        Seq::empty()
    } else if kinds[0] {
        if ironwood > 0 {
            beyond_allowed(at.skip(1), kinds.skip(1), orchard, (ironwood - 1) as nat)
        } else {
            seq![at[0]] + beyond_allowed(at.skip(1), kinds.skip(1), orchard, ironwood)
        }
    } else if orchard > 0 {
        beyond_allowed(at.skip(1), kinds.skip(1), (orchard - 1) as nat, ironwood)
    } else {
        seq![at[0]] + beyond_allowed(at.skip(1), kinds.skip(1), orchard, ironwood)
    }
}

/// What follows the first `n` positions.
pub open spec fn after_first(at: Seq<int>, n: nat) -> Seq<int> {
    if n <= at.len() {
        at.skip(n as int)
    } else {
        Seq::empty()
    }
}

/// The lesser of two numbers.
pub open spec fn lesser(a: nat, b: nat) -> nat {
    if a <= b {
        a
    } else {
        b
    }
}

/// How many dust inputs the outputs of a pool pay for, beside the inputs that are no dust.
pub open spec fn paid_for(dust: nat, outputs: nat, non_dust: nat) -> nat {
    lesser(
        dust,
        if outputs > non_dust {
            (outputs - non_dust) as nat
        } else {
            0
        },
    )
}

/// Whether there is a number, and it is not above the limit.
pub open spec fn within(n: Option<nat>, limit: nat) -> bool {
    n matches Some(n) && n <= limit
}

/// The numbers of inputs and outputs in each pool that decide on dust, and the rules for padding.
#[derive(Clone, Copy, Debug)]
pub struct DustCounts {
    pub t_dust: usize,
    pub t_non_dust: usize,
    pub t_outputs: usize,
    pub s_type: sapling::BundleType,
    pub s_dust: usize,
    pub s_non_dust: usize,
    pub s_outputs: usize,
    pub version: BundleVersion,
    pub orchard_dust: usize,
    pub orchard_non_dust: usize,
    pub orchard_outputs: usize,
    pub ironwood_dust: usize,
    pub ironwood_non_dust: usize,
    pub ironwood_outputs: usize,
    pub grace_actions: usize,
}

/// How many dust inputs of each pool may be spent.
#[derive(Clone, Copy, Debug, PartialEq, Eq, Structural)]
pub struct AllowedDust {
    pub transparent: usize,
    pub sapling: usize,
    pub orchard: usize,
    pub ironwood: usize,
}

impl AllowedDust {
    /// The lesser number for each pool.
    pub open spec fn least(self, other: AllowedDust) -> AllowedDust {
        AllowedDust {
            transparent: lesser(self.transparent as nat, other.transparent as nat) as usize,
            sapling: lesser(self.sapling as nat, other.sapling as nat) as usize,
            orchard: lesser(self.orchard as nat, other.orchard as nat) as usize,
            ironwood: lesser(self.ironwood as nat, other.ironwood as nat) as usize,
        }
    }
}

impl DustCounts {
    /// The number of all inputs and outputs.
    pub open spec fn size(self) -> nat {
        (self.t_dust + self.t_non_dust + self.t_outputs + self.s_dust + self.s_non_dust
            + self.s_outputs + self.orchard_dust + self.orchard_non_dust + self.orchard_outputs
            + self.ironwood_dust + self.ironwood_non_dust + self.ironwood_outputs) as nat
    }

    /// Whether the inputs and outputs, together with change and padding, can be counted.
    pub open spec fn fits(self, change: OutputManifest) -> bool {
        self.size() + change.size() + 8 <= usize::MAX
    }

    /// The dust inputs of each pool that its outputs pay for, whatever the padding.
    pub open spec fn paid(self, change: OutputManifest) -> AllowedDust {
        AllowedDust {
            transparent: paid_for(
                self.t_dust as nat,
                (self.t_outputs + change.transparent) as nat,
                self.t_non_dust as nat,
            ) as usize,
            sapling: paid_for(
                self.s_dust as nat,
                (self.s_outputs + change.sapling) as nat,
                self.s_non_dust as nat,
            ) as usize,
            orchard: paid_for(
                self.orchard_dust as nat,
                (self.orchard_outputs + change.orchard) as nat,
                self.orchard_non_dust as nat,
            ) as usize,
            ironwood: paid_for(
                self.ironwood_dust as nat,
                (self.ironwood_outputs + change.ironwood) as nat,
                self.ironwood_non_dust as nat,
            ) as usize,
        }
    }

    /// The number of logical actions when the given dust inputs are spent beside the inputs that
    /// are no dust, if the Sapling bundle can hold its part.
    pub open spec fn actions(self, change: OutputManifest, spent: AllowedDust) -> Option<nat> {
        let s_inputs = (self.s_non_dust + spent.sapling) as nat;
        let s_outputs = (self.s_outputs + change.sapling) as nat;
        match (self.s_type.spends_needed(s_inputs), self.s_type.outputs_needed(s_inputs, s_outputs)) {
            (Some(s_spend_count), Some(s_output_count)) => Some(
                greater(
                    (self.t_non_dust + spent.transparent) as nat,
                    (self.t_outputs + change.transparent) as nat,
                ) + greater(s_spend_count, s_output_count) + joint_actions(
                    self.version,
                    (self.orchard_non_dust + spent.orchard) as nat,
                    (self.ironwood_non_dust + spent.ironwood) as nat,
                    (self.orchard_outputs + change.orchard) as nat,
                    (self.ironwood_outputs + change.ironwood) as nat,
                ),
            ),
            _ => None,
        }
    }

    /// How many dust inputs of each pool may be spent with the given change: those that outputs
    /// pay for, and one more if the grace actions and the padding leave room for it, which is
    /// looked for first in the transparent part, then in Sapling, then in Orchard and Ironwood.
    /// There is no answer where a Sapling bundle would have to hold what it cannot.
    #[verifier::opaque]
    pub open spec fn allowed(self, kinds: Seq<bool>, change: OutputManifest) -> Option<AllowedDust> {
        let paid = self.paid(change);
        let one_t = AllowedDust { transparent: (paid.transparent + 1) as usize, ..paid };
        let one_s = AllowedDust { sapling: (paid.sapling + 1) as usize, ..paid };
        let one_o = AllowedDust { orchard: (paid.orchard + 1) as usize, ..paid };
        let one_i = AllowedDust { ironwood: (paid.ironwood + 1) as usize, ..paid };
        match self.actions(change, paid) {
            None => None,
            Some(baseline) => {
                if baseline >= self.grace_actions {
                    Some(paid)
                } else if self.t_dust > paid.transparent && within(
                    self.actions(change, one_t),
                    baseline,
                ) {
                    Some(one_t)
                } else if self.s_dust > paid.sapling && self.actions(change, one_s) is None {
                    None
                } else if self.s_dust > paid.sapling && within(
                    self.actions(change, one_s),
                    baseline,
                ) {
                    Some(one_s)
                } else {
                    match first_excess(kinds, paid.orchard as nat, paid.ironwood as nat) {
                        Some(true) if within(self.actions(change, one_i), baseline) => Some(one_i),
                        Some(false) if within(self.actions(change, one_o), baseline) => Some(one_o),
                        _ => Some(paid),
                    }
                }
            },
        }
    }

    /// The least number of dust inputs of each pool that may be spent, whichever of the possible
    /// changes it comes to.
    pub open spec fn least_allowed(self, kinds: Seq<bool>, possible: Seq<OutputManifest>) -> Option<
        AllowedDust,
    >
        decreases possible.len(),
    {
        if possible.len() <= 1 {
            self.allowed(kinds, possible[0])
        } else {
            match (self.least_allowed(kinds, possible.drop_last()), self.allowed(
                kinds,
                possible.last(),
            )) {
                (Some(l), Some(r)) => Some(l.least(r)),
                _ => None,
            }
        }
    }
}

/// How many dust inputs the outputs of a pool pay for, beside the inputs that are no dust.
fn count_paid_for(dust: usize, outputs: usize, non_dust: usize) -> (r: usize)
    ensures
        r == paid_for(dust as nat, outputs as nat, non_dust as nat),
{
    let room: usize = if outputs > non_dust {
        outputs - non_dust
    } else {
        0
    };
    if dust <= room {
        dust
    } else {
        room
    }
}

/// Padding adds at most one action to what is asked of each of the two bundles.
pub proof fn lemma_joint_actions_bound(version: BundleVersion, oi: nat, ii: nat, oo: nat, io: nat)
    ensures
        joint_actions(version, oi, ii, oo, io) <= oi + ii + oo + io + 2,
{
}

impl DustCounts {
    /// The number of logical actions when the given dust inputs are spent.
    #[verifier::spinoff_prover]
    fn hypothetical_actions(&self, change: &OutputManifest, spent: &AllowedDust) -> (r: Result<
        usize,
        &'static str,
    >)
        requires
            self.fits(*change),
            spent.transparent <= self.t_dust,
            spent.sapling <= self.s_dust,
            spent.orchard <= self.orchard_dust,
            spent.ironwood <= self.ironwood_dust,
        ensures
            match (r, self.actions(*change, *spent)) {
                (Ok(n), Some(actions)) => n == actions,
                (Err(message), None) => message@ == "Spends not allowed in coinbase bundles"@,
                _ => false,
            },
    {
        let s_inputs: usize = self.s_non_dust + spent.sapling;
        let s_outputs: usize = self.s_outputs + change.sapling;
        let s_spend_count: usize = match self.s_type.num_spends(s_inputs) {
            Ok(n) => n,
            Err(message) => {
                return Err(message);
            },
        };
        let s_output_count: usize = match self.s_type.num_outputs(s_inputs, s_outputs) {
            Ok(n) => n,
            Err(message) => {
                return Err(message);
            },
        };
        proof {
            lemma_joint_actions_bound(
                self.version,
                (self.orchard_non_dust + spent.orchard) as nat,
                (self.ironwood_non_dust + spent.ironwood) as nat,
                (self.orchard_outputs + change.orchard) as nat,
                (self.ironwood_outputs + change.ironwood) as nat,
            );
        }
        let counted: Result<usize, ChangeError<(), ()>> = orchard_action_count_from_parts(
            self.version,
            self.orchard_non_dust + spent.orchard,
            self.ironwood_non_dust + spent.ironwood,
            self.orchard_outputs + change.orchard,
            self.ironwood_outputs + change.ironwood,
        );
        let o_action_count: usize = match counted {
            Ok(n) => n,
            Err(_) => {
                assert(false);
                0
            },
        };
        let t_inputs: usize = self.t_non_dust + spent.transparent;
        let t_outputs: usize = self.t_outputs + change.transparent;
        let t_actions: usize = if t_inputs >= t_outputs {
            t_inputs
        } else {
            t_outputs
        };
        let s_actions: usize = if s_spend_count >= s_output_count {
            s_spend_count
        } else {
            s_output_count
        };
        Ok(t_actions + s_actions + o_action_count)
    }
}

/// The kind of the first dust note for which there is no room left.
fn next_orchard_dust(kinds: &Vec<bool>, allowed_orchard: usize, allowed_ironwood: usize) -> (r:
    Option<bool>)
    ensures
        r == first_excess(kinds@, allowed_orchard as nat, allowed_ironwood as nat),
{
    let mut orchard: usize = allowed_orchard;
    let mut ironwood: usize = allowed_ironwood;
    let mut i: usize = 0;
    assert(kinds@.skip(0) =~= kinds@);
    while i < kinds.len()
        invariant
            i <= kinds.len(),
            first_excess(kinds@, allowed_orchard as nat, allowed_ironwood as nat) == first_excess(
                kinds@.skip(i as int),
                orchard as nat,
                ironwood as nat,
            ),
        decreases kinds.len() - i,
    {
        assert(kinds@.skip(i as int).skip(1) =~= kinds@.skip(i as int + 1));
        if kinds[i] {
            if ironwood == 0 {
                return Some(true);
            }
            ironwood = ironwood - 1;
        } else {
            if orchard == 0 {
                return Some(false);
            }
            orchard = orchard - 1;
        }
        i = i + 1;
    }
    None
}

/// A note for which there is no room is one that the room does not suffice for.
proof fn lemma_first_excess(kinds: Seq<bool>, orchard: nat, ironwood: nat)
    ensures
        match first_excess(kinds, orchard, ironwood) {
            Some(true) => ironwood < count_set(kinds),
            Some(false) => orchard < kinds.len() - count_set(kinds),
            None => true,
        },
    decreases kinds.len(),
{
    if kinds.len() > 0 {
        let rest = kinds.skip(1);
        lemma_count_set_skip(kinds);
        lemma_count_set_bound(rest);
        if kinds[0] {
            if ironwood > 0 {
                lemma_first_excess(rest, orchard, (ironwood - 1) as nat);
            }
        } else if orchard > 0 {
            lemma_first_excess(rest, (orchard - 1) as nat, ironwood);
        }
    }
}

/// Counting can start at the front as well.
proof fn lemma_count_set_skip(flags: Seq<bool>)
    requires
        flags.len() > 0,
    ensures
        count_set(flags) == count_set(flags.skip(1)) + if flags[0] {
            1nat
        } else {
            0
        },
    decreases flags.len(),
{
    if flags.len() == 1 {
        assert(flags.skip(1) =~= Seq::empty());
        assert(flags.drop_last() =~= Seq::empty());
        assert(count_set(flags.drop_last()) == 0);
    } else {
        lemma_count_set_skip(flags.drop_last());
        assert(flags.skip(1).drop_last() =~= flags.drop_last().skip(1));
    }
}

impl DustCounts {
    /// How many dust inputs of each pool may be spent with the given change.
    fn allowed_dust(&self, kinds: &Vec<bool>, change: &OutputManifest) -> (r: Result<
        AllowedDust,
        &'static str,
    >)
        requires
            self.fits(*change),
            self.ironwood_dust == count_set(kinds@),
            self.orchard_dust == kinds@.len() - count_set(kinds@),
        ensures
            match (r, self.allowed(kinds@, *change)) {
                (Ok(n), Some(allowed)) => n == allowed && n.transparent <= self.t_dust && n.sapling
                    <= self.s_dust && n.orchard <= self.orchard_dust && n.ironwood
                    <= self.ironwood_dust,
                (Err(message), None) => message@ == "Spends not allowed in coinbase bundles"@,
                _ => false,
            },
    {
        proof {
            reveal(DustCounts::allowed);
        }
        let paid = AllowedDust {
            transparent: count_paid_for(
                self.t_dust,
                self.t_outputs + change.transparent,
                self.t_non_dust,
            ),
            sapling: count_paid_for(self.s_dust, self.s_outputs + change.sapling, self.s_non_dust),
            orchard: count_paid_for(
                self.orchard_dust,
                self.orchard_outputs + change.orchard,
                self.orchard_non_dust,
            ),
            ironwood: count_paid_for(
                self.ironwood_dust,
                self.ironwood_outputs + change.ironwood,
                self.ironwood_non_dust,
            ),
        };
        let baseline: usize = match self.hypothetical_actions(change, &paid) {
            Ok(n) => n,
            Err(message) => {
                return Err(message);
            },
        };
        if baseline >= self.grace_actions {
            return Ok(paid);
        }
        if self.t_dust > paid.transparent {
            let one_more = AllowedDust { transparent: paid.transparent + 1, ..paid };
            match self.hypothetical_actions(change, &one_more) {
                Ok(n) => {
                    if n <= baseline {
                        return Ok(one_more);
                    }
                },
                Err(message) => {
                    return Err(message);
                },
            }
        }
        if self.s_dust > paid.sapling {
            let one_more = AllowedDust { sapling: paid.sapling + 1, ..paid };
            match self.hypothetical_actions(change, &one_more) {
                Ok(n) => {
                    if n <= baseline {
                        return Ok(one_more);
                    }
                },
                Err(message) => {
                    return Err(message);
                },
            }
        }
        proof {
            lemma_first_excess(kinds@, paid.orchard as nat, paid.ironwood as nat);
        }
        match next_orchard_dust(kinds, paid.orchard, paid.ironwood) {
            Some(is_ironwood) => {
                let one_more = if is_ironwood {
                    AllowedDust { ironwood: paid.ironwood + 1, ..paid }
                } else {
                    AllowedDust { orchard: paid.orchard + 1, ..paid }
                };
                match self.hypothetical_actions(change, &one_more) {
                    Ok(n) => if n <= baseline {
                        Ok(one_more)
                    } else {
                        Ok(paid)
                    },
                    Err(message) => Err(message),
                }
            },
            None => Ok(paid),
        }
    }

    /// The least number of dust inputs of each pool that may be spent, whichever of the possible
    /// changes it comes to.
    fn least_allowed_dust(&self, kinds: &Vec<bool>, possible: &[OutputManifest]) -> (r: Result<
        AllowedDust,
        &'static str,
    >)
        requires
            possible@.len() > 0,
            forall|i: int| 0 <= i < possible@.len() ==> self.fits(#[trigger] possible@[i]),
            self.ironwood_dust == count_set(kinds@),
            self.orchard_dust == kinds@.len() - count_set(kinds@),
        ensures
            match (r, self.least_allowed(kinds@, possible@)) {
                (Ok(n), Some(allowed)) => n == allowed && n.transparent <= self.t_dust && n.sapling
                    <= self.s_dust && n.orchard <= self.orchard_dust && n.ironwood
                    <= self.ironwood_dust,
                (Err(message), None) => message@ == "Spends not allowed in coinbase bundles"@,
                _ => false,
            },
    {
        let mut least: AllowedDust = match self.allowed_dust(kinds, &possible[0]) {
            Ok(allowed) => allowed,
            Err(message) => {
                proof {
                    self.lemma_least_allowed_none(kinds@, possible@, 0);
                }
                return Err(message);
            },
        };
        let mut i: usize = 1;
        assert(possible@.take(1)[0] == possible@[0]);
        while i < possible.len()
            invariant
                1 <= i <= possible.len(),
                forall|i: int| 0 <= i < possible@.len() ==> self.fits(#[trigger] possible@[i]),
                self.ironwood_dust == count_set(kinds@),
                self.orchard_dust == kinds@.len() - count_set(kinds@),
                self.least_allowed(kinds@, possible@.take(i as int)) == Some(least),
                least.transparent <= self.t_dust,
                least.sapling <= self.s_dust,
                least.orchard <= self.orchard_dust,
                least.ironwood <= self.ironwood_dust,
            decreases possible.len() - i,
        {
            assert(possible@.take(i as int + 1).drop_last() =~= possible@.take(i as int));
            match self.allowed_dust(kinds, &possible[i]) {
                Ok(allowed) => {
                    least = AllowedDust {
                        transparent: if least.transparent <= allowed.transparent {
                            least.transparent
                        } else {
                            allowed.transparent
                        },
                        sapling: if least.sapling <= allowed.sapling {
                            least.sapling
                        } else {
                            allowed.sapling
                        },
                        orchard: if least.orchard <= allowed.orchard {
                            least.orchard
                        } else {
                            allowed.orchard
                        },
                        ironwood: if least.ironwood <= allowed.ironwood {
                            least.ironwood
                        } else {
                            allowed.ironwood
                        },
                    };
                },
                Err(message) => {
                    proof {
                        self.lemma_least_allowed_none(kinds@, possible@, i as int);
                    }
                    return Err(message);
                },
            }
            i = i + 1;
        }
        assert(possible@.take(i as int) =~= possible@);
        Ok(least)
    }

    /// Where one of the possible changes has no answer, they have none together.
    proof fn lemma_least_allowed_none(
        self,
        kinds: Seq<bool>,
        possible: Seq<OutputManifest>,
        i: int,
    )
        requires
            0 <= i < possible.len(),
            self.allowed(kinds, possible[i]) is None,
        ensures
            self.least_allowed(kinds, possible) is None,
        decreases possible.len(),
    {
        if possible.len() > 1 && i < possible.len() - 1 {
            self.lemma_least_allowed_none(kinds, possible.drop_last(), i);
        }
    }
}

impl DustCounts {
    /// Of two lists of possible changes together, no more dust inputs of a pool may be spent than of
    /// either of them, and just as many as of one of them.
    pub proof fn lemma_least_allowed_joined(
        self,
        kinds: Seq<bool>,
        first: Seq<OutputManifest>,
        second: Seq<OutputManifest>,
    )
        requires
            first.len() > 0,
            second.len() > 0,
        ensures
            self.least_allowed(kinds, first + second) == (match (
                self.least_allowed(kinds, first),
                self.least_allowed(kinds, second),
            ) {
                (Some(l), Some(r)) => Some(l.least(r)),
                _ => None,
            }),
        decreases second.len(),
    {
        let joined = first + second;
        if second.len() > 1 {
            self.lemma_least_allowed_joined(kinds, first, second.drop_last());
            assert(joined.drop_last() =~= first + second.drop_last());
        } else {
            assert(joined.drop_last() =~= first);
        }
        assert(joined.last() == second.last());
    }
}

/// Positions, as the numbers that they are.
pub open spec fn positions(at: Seq<usize>) -> Seq<int> {
    at.map_values(|i: usize| i as int)
}

/// How many of something there are, when it may be missing.
pub open spec fn present(b: bool) -> nat {
    if b {
        1
    } else {
        0
    }
}

impl<N> Shape<N> {
    /// Whether the inputs and outputs, together with so many more, can be counted.
    pub open spec fn fits(self, more: nat) -> bool {
        self.size() + more + 10 <= usize::MAX
    }

    /// The kinds of the Orchard and Ironwood notes that are not worth more than the limit.
    pub open spec fn dust_kinds(self, limit: nat) -> Seq<bool> {
        pick(self.o_in_ironwood, dust(self.o_in, limit))
    }

    /// The numbers that decide which dust inputs may be spent.
    pub open spec fn dust_counts(
        self,
        marginal_fee: nat,
        version: BundleVersion,
        orchard_outputs_are_ironwood: bool,
        grace_actions: usize,
    ) -> DustCounts {
        let t_dust = dust(self.t_in, marginal_fee).len();
        let s_dust = dust(self.s_in, marginal_fee).len();
        let o_dust = dust(self.o_in, marginal_fee).len();
        let ironwood_dust = count_set(self.dust_kinds(marginal_fee));
        DustCounts {
            t_dust: t_dust as usize,
            t_non_dust: (self.t_in.len() + present(EphemeralBalance::input(self.ephemeral) is Some)
                - t_dust) as usize,
            t_outputs: (self.t_out.len() + present(
                EphemeralBalance::output(self.ephemeral) is Some,
            )) as usize,
            s_type: self.s_type,
            s_dust: s_dust as usize,
            s_non_dust: (self.s_in.len() - s_dust) as usize,
            s_outputs: self.s_out.len() as usize,
            version,
            orchard_dust: (o_dust - ironwood_dust) as usize,
            orchard_non_dust: (self.orchard_inputs() - (o_dust - ironwood_dust)) as usize,
            orchard_outputs: if orchard_outputs_are_ironwood {
                0
            } else {
                self.o_out.len() as usize
            },
            ironwood_dust: ironwood_dust as usize,
            ironwood_non_dust: (self.ironwood_inputs() - ironwood_dust) as usize,
            ironwood_outputs: if orchard_outputs_are_ironwood {
                self.o_out.len() as usize
            } else {
                0
            },
            grace_actions,
        }
    }

    /// Whether any input is not worth more than the limit.
    pub open spec fn has_dust(self, limit: nat) -> bool {
        dust(self.t_in, limit).len() > 0 || dust(self.s_in, limit).len() > 0 || dust(
            self.o_in,
            limit,
        ).len() > 0
    }

    /// Whether no input is uneconomic, whichever of the possible changes it comes to.
    pub open spec fn economic(
        self,
        marginal_fee: nat,
        version: BundleVersion,
        orchard_outputs_are_ironwood: bool,
        grace_actions: usize,
        possible_change: Seq<OutputManifest>,
    ) -> bool {
        self.uneconomic(
            marginal_fee,
            version,
            orchard_outputs_are_ironwood,
            grace_actions,
            possible_change,
        ) matches Some((t, sa, o)) && t.len() == 0 && sa.len() == 0 && o.len() == 0
    }

    /// The positions of the transparent, the Sapling and the Orchard inputs that could not be
    /// determined to be worth spending: of the dust inputs of each pool, those after the first
    /// ones that may be spent whichever of the possible changes it comes to. There is no answer
    /// where a Sapling bundle would have to hold what it cannot.
    #[verifier::opaque]
    pub open spec fn uneconomic(
        self,
        marginal_fee: nat,
        version: BundleVersion,
        orchard_outputs_are_ironwood: bool,
        grace_actions: usize,
        possible_change: Seq<OutputManifest>,
    ) -> Option<(Seq<int>, Seq<int>, Seq<int>)> {
        let t_dust = dust(self.t_in, marginal_fee);
        let s_dust = dust(self.s_in, marginal_fee);
        let o_dust = dust(self.o_in, marginal_fee);
        let kinds = self.dust_kinds(marginal_fee);
        let counts = self.dust_counts(
            marginal_fee,
            version,
            orchard_outputs_are_ironwood,
            grace_actions,
        );
        if t_dust.len() == 0 && s_dust.len() == 0 && o_dust.len() == 0 {
            Some((t_dust, s_dust, o_dust))
        } else {
            match counts.least_allowed(kinds, possible_change) {
                Some(allowed) => Some(
                    (
                        after_first(t_dust, allowed.transparent as nat),
                        after_first(s_dust, allowed.sapling as nat),
                        beyond_allowed(o_dust, kinds, allowed.orchard as nat, allowed.ironwood as nat),
                    ),
                ),
                None => None,
            }
        }
    }
}

/// The positions are positions of inputs that are not worth more than the limit.
proof fn lemma_dust_positions(worths: Seq<nat>, limit: nat)
    ensures
        dust(worths, limit).len() <= worths.len(),
        forall|k: int|
            0 <= k < dust(worths, limit).len() ==> 0 <= #[trigger] dust(worths, limit)[k]
                < worths.len() && worths[dust(worths, limit)[k]] <= limit,
    decreases worths.len(),
{
    if worths.len() > 0 {
        lemma_dust_positions(worths.drop_last(), limit);
    }
}

/// Among the dust there are no more notes of either kind than there are altogether.
proof fn lemma_dust_kinds(worths: Seq<nat>, flags: Seq<bool>, limit: nat)
    requires
        flags.len() == worths.len(),
    ensures
        count_set(pick(flags, dust(worths, limit))) <= count_set(flags),
        dust(worths, limit).len() - count_set(pick(flags, dust(worths, limit))) <= flags.len()
            - count_set(flags),
    decreases worths.len(),
{
    if worths.len() > 0 {
        let before = dust(worths.drop_last(), limit);
        lemma_dust_kinds(worths.drop_last(), flags.drop_last(), limit);
        lemma_dust_positions(worths.drop_last(), limit);
        assert(pick(flags.drop_last(), before) =~= pick(flags, before));
        if worths.last() <= limit {
            let all = pick(flags, dust(worths, limit));
            assert(all.drop_last() =~= pick(flags, before));
        }
    } else {
        assert(pick(flags, dust(worths, limit)) =~= Seq::empty());
    }
}

/// The positions of the transparent inputs that are not worth more than the limit.
fn transparent_dust(inputs: &[TransparentInput], limit: Zatoshis) -> (r: Vec<usize>)
    ensures
        positions(r@) == dust(inputs@.map_values(|i: TransparentInput| i.value@), limit@),
{
    let ghost worths = inputs@.map_values(|i: TransparentInput| i.value@);
    let mut found: Vec<usize> = Vec::new();
    let mut i: usize = 0;
    assert(positions(found@) =~= dust(worths.take(0), limit@));
    while i < inputs.len()
        invariant
            i <= inputs.len(),
            worths == inputs@.map_values(|i: TransparentInput| i.value@),
            positions(found@) == dust(worths.take(i as int), limit@),
        decreases inputs.len() - i,
    {
        let ghost before = found@;
        assert(worths.take(i as int + 1).drop_last() =~= worths.take(i as int));
        if inputs[i].value.into_u64() <= limit.into_u64() {
            found.push(i);
            assert(positions(found@) =~= positions(before).push(i as int));
        }
        i = i + 1;
    }
    assert(worths.take(i as int) =~= worths);
    found
}

/// The positions of the Sapling inputs that are not worth more than the limit.
fn sapling_dust<N>(inputs: &Vec<sapling::NoteInput<N>>, limit: Zatoshis) -> (r: Vec<usize>)
    ensures
        positions(r@) == dust(inputs@.map_values(|i: sapling::NoteInput<N>| i.value@), limit@),
{
    let ghost worths = inputs@.map_values(|i: sapling::NoteInput<N>| i.value@);
    let mut found: Vec<usize> = Vec::new();
    let mut i: usize = 0;
    assert(positions(found@) =~= dust(worths.take(0), limit@));
    while i < inputs.len()
        invariant
            i <= inputs.len(),
            worths == inputs@.map_values(|i: sapling::NoteInput<N>| i.value@),
            positions(found@) == dust(worths.take(i as int), limit@),
        decreases inputs.len() - i,
    {
        let ghost before = found@;
        assert(worths.take(i as int + 1).drop_last() =~= worths.take(i as int));
        if inputs[i].value.into_u64() <= limit.into_u64() {
            found.push(i);
            assert(positions(found@) =~= positions(before).push(i as int));
        }
        i = i + 1;
    }
    assert(worths.take(i as int) =~= worths);
    found
}

/// The positions of the Orchard and Ironwood inputs that are not worth more than the limit, and
/// for each of them whether it is of the Ironwood pool.
fn orchard_dust<N, I: InputView<N>>(inputs: &[I], limit: Zatoshis) -> (r: (Vec<usize>, Vec<bool>))
    ensures
        positions(r.0@) == dust(inputs@.map_values(|i: I| i.worth()), limit@),
        r.1@ == pick(inputs@.map_values(|i: I| i.of_ironwood()), positions(r.0@)),
{
    let ghost worths = inputs@.map_values(|i: I| i.worth());
    let ghost flags = inputs@.map_values(|i: I| i.of_ironwood());
    let mut found: Vec<usize> = Vec::new();
    let mut kinds: Vec<bool> = Vec::new();
    let mut i: usize = 0;
    assert(positions(found@) =~= dust(worths.take(0), limit@));
    assert(kinds@ =~= pick(flags, positions(found@)));
    while i < inputs.len()
        invariant
            i <= inputs.len(),
            worths == inputs@.map_values(|i: I| i.worth()),
            flags == inputs@.map_values(|i: I| i.of_ironwood()),
            positions(found@) == dust(worths.take(i as int), limit@),
            kinds@ == pick(flags, positions(found@)),
        decreases inputs.len() - i,
    {
        let ghost before = found@;
        assert(worths.take(i as int + 1).drop_last() =~= worths.take(i as int));
        if inputs[i].value().into_u64() <= limit.into_u64() {
            found.push(i);
            kinds.push(inputs[i].is_ironwood());
            assert(positions(found@) =~= positions(before).push(i as int));
            assert(kinds@ =~= pick(flags, positions(found@)));
        }
        i = i + 1;
    }
    assert(worths.take(i as int) =~= worths);
    (found, kinds)
}

/// The notes in the list for which there is no room left.
fn drop_allowed(at: &Vec<usize>, kinds: &Vec<bool>, orchard: usize, ironwood: usize) -> (r: Vec<
    usize,
>)
    requires
        at@.len() == kinds@.len(),
    ensures
        positions(r@) == beyond_allowed(
            positions(at@),
            kinds@,
            orchard as nat,
            ironwood as nat,
        ),
{
    let mut allowed_orchard: usize = orchard;
    let mut allowed_ironwood: usize = ironwood;
    let mut excess: Vec<usize> = Vec::new();
    let mut i: usize = 0;
    let ghost all = beyond_allowed(positions(at@), kinds@, orchard as nat, ironwood as nat);
    assert(positions(at@).skip(0) =~= positions(at@));
    assert(kinds@.skip(0) =~= kinds@);
    assert(positions(excess@) + all =~= all);
    while i < at.len()
        invariant
            i <= at.len(),
            at@.len() == kinds@.len(),
            all == positions(excess@) + beyond_allowed(
                positions(at@).skip(i as int),
                kinds@.skip(i as int),
                allowed_orchard as nat,
                allowed_ironwood as nat,
            ),
        decreases at.len() - i,
    {
        assert(positions(at@).skip(i as int).skip(1) =~= positions(at@).skip(i as int + 1));
        assert(kinds@.skip(i as int).skip(1) =~= kinds@.skip(i as int + 1));
        let ghost before = excess@;
        let excessive: bool = if kinds[i] {
            if allowed_ironwood > 0 {
                allowed_ironwood = allowed_ironwood - 1;
                false
            } else {
                true
            }
        } else {
            if allowed_orchard > 0 {
                allowed_orchard = allowed_orchard - 1;
                false
            } else {
                true
            }
        };
        if excessive {
            excess.push(at[i]);
            let ghost rest = beyond_allowed(
                positions(at@).skip(i as int + 1),
                kinds@.skip(i as int + 1),
                allowed_orchard as nat,
                allowed_ironwood as nat,
            );
            assert(positions(excess@) + rest =~= positions(before) + (seq![at@[i as int] as int]
                + rest));
        }
        i = i + 1;
    }
    assert(positions(excess@) + Seq::<int>::empty() =~= positions(excess@));
    excess
}

/// The outpoints of the transparent inputs that stand at the positions from `start` on.
fn outpoints_at(inputs: &[TransparentInput], at: &Vec<usize>, start: usize) -> (r: Vec<OutPoint>)
    requires
        start <= at@.len(),
        forall|k: int| 0 <= k < at@.len() ==> #[trigger] at@[k] < inputs@.len(),
    ensures
        r@ == pick(
            inputs@.map_values(|i: TransparentInput| i.outpoint),
            positions(at@).skip(start as int),
        ),
{
    let ghost ids = inputs@.map_values(|i: TransparentInput| i.outpoint);
    let mut picked: Vec<OutPoint> = Vec::new();
    let mut i: usize = start;
    while i < at.len()
        invariant
            start <= i <= at.len(),
            ids == inputs@.map_values(|i: TransparentInput| i.outpoint),
            forall|k: int| 0 <= k < at@.len() ==> #[trigger] at@[k] < inputs@.len(),
            picked@.len() == i - start,
            forall|k: int| 0 <= k < picked@.len() ==> #[trigger] picked@[k] == ids[at@[start + k] as int],
        decreases at.len() - i,
    {
        picked.push(inputs[at[i]].outpoint);
        i = i + 1;
    }
    assert(picked@ =~= pick(ids, positions(at@).skip(start as int)));
    picked
}

/// Clones of the identifiers of the Sapling notes that stand at the positions from `start` on.
fn sapling_ids_at<N: Clone>(inputs: &Vec<sapling::NoteInput<N>>, at: &Vec<usize>, start: usize) -> (r:
    Vec<N>)
    requires
        start <= at@.len(),
        forall|k: int| 0 <= k < at@.len() ==> #[trigger] at@[k] < inputs@.len(),
    ensures
        clones_of(
            inputs@.map_values(|i: sapling::NoteInput<N>| i.note_id),
            positions(at@).skip(start as int),
            r@,
        ),
{
    let ghost ids = inputs@.map_values(|i: sapling::NoteInput<N>| i.note_id);
    let mut picked: Vec<N> = Vec::new();
    let mut i: usize = start;
    while i < at.len()
        invariant
            start <= i <= at.len(),
            ids == inputs@.map_values(|i: sapling::NoteInput<N>| i.note_id),
            forall|k: int| 0 <= k < at@.len() ==> #[trigger] at@[k] < inputs@.len(),
            picked@.len() == i - start,
            forall|k: int|
                0 <= k < picked@.len() ==> cloned(ids[at@[start + k] as int], #[trigger] picked@[k]),
        decreases at.len() - i,
    {
        picked.push(inputs[at[i]].note_id.clone());
        i = i + 1;
    }
    picked
}

/// Clones of the identifiers of the Orchard and Ironwood notes that stand at the positions.
fn orchard_ids_at<N: Clone, I: InputView<N>>(inputs: &[I], at: &Vec<usize>) -> (r: Vec<N>)
    requires
        forall|k: int| 0 <= k < at@.len() ==> #[trigger] at@[k] < inputs@.len(),
    ensures
        clones_of(inputs@.map_values(|i: I| i.id()), positions(at@), r@),
{
    let ghost ids = inputs@.map_values(|i: I| i.id());
    let mut picked: Vec<N> = Vec::new();
    let mut i: usize = 0;
    while i < at.len()
        invariant
            i <= at.len(),
            ids == inputs@.map_values(|i: I| i.id()),
            forall|k: int| 0 <= k < at@.len() ==> #[trigger] at@[k] < inputs@.len(),
            picked@.len() == i,
            forall|k: int|
                0 <= k < picked@.len() ==> cloned(ids[at@[k] as int], #[trigger] picked@[k]),
        decreases at.len() - i,
    {
        picked.push(inputs[at[i]].note_id().clone());
        i = i + 1;
    }
    picked
}

/// What is left of a list of positions stood in it before.
proof fn lemma_beyond_allowed_subset(at: Seq<int>, kinds: Seq<bool>, orchard: nat, ironwood: nat)
    requires
        at.len() == kinds.len(),
    ensures
        forall|k: int|
            0 <= k < beyond_allowed(at, kinds, orchard, ironwood).len() ==> at.contains(
                #[trigger] beyond_allowed(at, kinds, orchard, ironwood)[k],
            ),
    decreases at.len(),
{
    if at.len() > 0 {
        let rest_at = at.skip(1);
        let rest_kinds = kinds.skip(1);
        let next_orchard = if !kinds[0] && orchard > 0 {
            (orchard - 1) as nat
        } else {
            orchard
        };
        let next_ironwood = if kinds[0] && ironwood > 0 {
            (ironwood - 1) as nat
        } else {
            ironwood
        };
        lemma_beyond_allowed_subset(rest_at, rest_kinds, next_orchard, next_ironwood);
        let rest = beyond_allowed(rest_at, rest_kinds, next_orchard, next_ironwood);
        let all = beyond_allowed(at, kinds, orchard, ironwood);
        assert forall|k: int| 0 <= k < all.len() implies at.contains(#[trigger] all[k]) by {
            if all.len() == rest.len() {
                assert(all == rest);
                assert(rest_at.contains(rest[k]));
                let j = choose|j: int| 0 <= j < rest_at.len() && rest_at[j] == rest[k];
                assert(at[j + 1] == all[k]);
            } else if k == 0 {
                assert(all[0] == at[0]);
            } else {
                assert(all[k] == rest[k - 1]);
                assert(rest_at.contains(rest[k - 1]));
                let j = choose|j: int| 0 <= j < rest_at.len() && rest_at[j] == rest[k - 1];
                assert(at[j + 1] == all[k]);
            }
        }
    }
}

/// Returns a [`ChangeError::DustInputs`] error if some of the inputs have a value of no more than
/// the marginal fee and could not be determined to have any economic value in this transaction.
///
/// The determination may be conservative: an input with a value of no more than the marginal fee
/// may be reported although the fee would not grow by it. `possible_change` holds the
/// combinations of change outputs that the transaction may come to have. The caller should order
/// the inputs from the most to the least preferred to spend.
pub fn check_for_uneconomic_inputs<NoteRefT: Clone, FeeError, O: BundleView<NoteRefT>>(
    transparent_inputs: &[TransparentInput],
    transparent_outputs: &[TransparentOutput],
    sapling: &sapling::BundleView<NoteRefT>,
    orchard: &O,
    orchard_version: BundleVersion,
    orchard_outputs_are_ironwood: bool,
    marginal_fee: Zatoshis,
    grace_actions: usize,
    possible_change: &[OutputManifest],
    ephemeral_balance: Option<EphemeralBalance>,
) -> (r: Result<(), ChangeError<FeeError, NoteRefT>>)
    requires
        shape(
            transparent_inputs@,
            transparent_outputs@,
            *sapling,
            *orchard,
            ephemeral_balance,
        ).has_dust(marginal_fee@) ==> possible_change@.len() > 0,
        forall|i: int|
            0 <= i < possible_change@.len() ==> shape(
                transparent_inputs@,
                transparent_outputs@,
                *sapling,
                *orchard,
                ephemeral_balance,
            ).fits((#[trigger] possible_change@[i]).size()),
    ensures
        ({
            let s = shape(
                transparent_inputs@,
                transparent_outputs@,
                *sapling,
                *orchard,
                ephemeral_balance,
            );
            &&& uneconomic_result(
                r,
                s,
                s.uneconomic(
                    marginal_fee@,
                    orchard_version,
                    orchard_outputs_are_ironwood,
                    grace_actions,
                    possible_change@,
                ),
            )
            &&& r is Ok <==> s.economic(
                marginal_fee@,
                orchard_version,
                orchard_outputs_are_ironwood,
                grace_actions,
                possible_change@,
            )
            &&& sapling.bundle_type is Transactional && possible_change@.len() > 0 ==> (r is Ok
                <==> forall|c: int|
                0 <= c < possible_change@.len() ==> s.worth_spending(
                    marginal_fee@,
                    orchard_version,
                    orchard_outputs_are_ironwood,
                    grace_actions,
                    #[trigger] possible_change@[c],
                ))
        }),
{
    let ghost s = shape(
        transparent_inputs@,
        transparent_outputs@,
        *sapling,
        *orchard,
        ephemeral_balance,
    );
    proof {
        if sapling.bundle_type is Transactional && possible_change@.len() > 0 {
            lemma_economic_with_changes(
                s,
                marginal_fee@,
                orchard_version,
                orchard_outputs_are_ironwood,
                grace_actions,
                possible_change@,
            );
        }
        reveal(Shape::uneconomic);
    }
    let o_inputs = orchard.inputs();
    let t_dust = transparent_dust(transparent_inputs, marginal_fee);
    let s_dust = sapling_dust(&sapling.inputs, marginal_fee);
    let (o_dust, o_kinds) = orchard_dust(o_inputs, marginal_fee);
    proof {
        lemma_dust_positions(s.t_in, marginal_fee@);
        lemma_dust_positions(s.s_in, marginal_fee@);
        lemma_dust_positions(s.o_in, marginal_fee@);
        lemma_dust_kinds(s.o_in, s.o_in_ironwood, marginal_fee@);
        lemma_count_set_bound(s.o_in_ironwood);
        lemma_count_set_bound(o_kinds@);
        assert(s.t_in.len() == transparent_inputs@.len());
        assert(s.s_in.len() == sapling.inputs@.len());
        assert(s.o_in.len() == o_inputs@.len());
        assert(positions(t_dust@).len() == t_dust@.len());
        assert(positions(s_dust@).len() == s_dust@.len());
        assert(positions(o_dust@).len() == o_dust@.len());
        assert forall|k: int| 0 <= k < t_dust@.len() implies #[trigger] t_dust@[k]
            < transparent_inputs@.len() by {
            assert(positions(t_dust@)[k] == t_dust@[k] as int);
        }
        assert forall|k: int| 0 <= k < s_dust@.len() implies #[trigger] s_dust@[k]
            < sapling.inputs@.len() by {
            assert(positions(s_dust@)[k] == s_dust@[k] as int);
        }
    }
    if t_dust.len() == 0 && s_dust.len() == 0 && o_dust.len() == 0 {
        return Ok(());
    }
    assert(s.fits(possible_change@[0].size()));
    let ephemeral_input: usize = match ephemeral_balance {
        Some(b) => if b.is_input() {
            1
        } else {
            0
        },
        None => 0,
    };
    let ephemeral_output: usize = match ephemeral_balance {
        Some(b) => if b.is_output() {
            1
        } else {
            0
        },
        None => 0,
    };
    let o_outputs_len: usize = orchard.outputs().len();
    let ironwood_inputs_len: usize = super::common::count_ironwood(o_inputs);
    let orchard_inputs_len: usize = o_inputs.len() - ironwood_inputs_len;
    let ironwood_dust: usize = count_kinds(&o_kinds);
    let orchard_dust: usize = o_dust.len() - ironwood_dust;
    let counts = DustCounts {
        t_dust: t_dust.len(),
        t_non_dust: transparent_inputs.len() + ephemeral_input - t_dust.len(),
        t_outputs: transparent_outputs.len() + ephemeral_output,
        s_type: sapling.bundle_type,
        s_dust: s_dust.len(),
        s_non_dust: sapling.inputs.len() - s_dust.len(),
        s_outputs: sapling.outputs.len(),
        version: orchard_version,
        orchard_dust,
        orchard_non_dust: orchard_inputs_len - orchard_dust,
        orchard_outputs: if orchard_outputs_are_ironwood {
            0
        } else {
            o_outputs_len
        },
        ironwood_dust,
        ironwood_non_dust: ironwood_inputs_len - ironwood_dust,
        ironwood_outputs: if orchard_outputs_are_ironwood {
            o_outputs_len
        } else {
            0
        },
        grace_actions,
    };
    assert(counts == s.dust_counts(
        marginal_fee@,
        orchard_version,
        orchard_outputs_are_ironwood,
        grace_actions,
    ));
    assert forall|i: int| 0 <= i < possible_change@.len() implies counts.fits(
        #[trigger] possible_change@[i],
    ) by {
        assert(s.fits(possible_change@[i].size()));
    }
    let allowed: AllowedDust = match counts.least_allowed_dust(&o_kinds, possible_change) {
        Ok(allowed) => allowed,
        Err(message) => {
            return Err(ChangeError::BundleError(message));
        },
    };
    let o_excess = drop_allowed(&o_dust, &o_kinds, allowed.orchard, allowed.ironwood);
    proof {
        lemma_beyond_allowed_subset(
            positions(o_dust@),
            o_kinds@,
            allowed.orchard as nat,
            allowed.ironwood as nat,
        );
        assert forall|k: int| 0 <= k < o_excess@.len() implies #[trigger] o_excess@[k]
            < o_inputs@.len() by {
            assert(positions(o_excess@)[k] == o_excess@[k] as int);
            assert(positions(o_dust@).contains(positions(o_excess@)[k]));
        }
        assert(positions(t_dust@).skip(allowed.transparent as int).len() == t_dust@.len()
            - allowed.transparent);
        assert(positions(s_dust@).skip(allowed.sapling as int).len() == s_dust@.len()
            - allowed.sapling);
        assert(positions(o_excess@).len() == o_excess@.len());
    }
    let transparent = outpoints_at(transparent_inputs, &t_dust, allowed.transparent);
    let sapling = sapling_ids_at(&sapling.inputs, &s_dust, allowed.sapling);
    let orchard = orchard_ids_at(o_inputs, &o_excess);
    if transparent.len() == 0 && sapling.len() == 0 && orchard.len() == 0 {
        Ok(())
    } else {
        Err(ChangeError::DustInputs { transparent, sapling, orchard })
    }
}

/// Whether `r` reports the uneconomic inputs that stand at the given positions, or that a Sapling
/// bundle would have to hold what it cannot.
pub open spec fn uneconomic_result<N: Clone, FeeError>(
    r: Result<(), ChangeError<FeeError, N>>,
    s: Shape<N>,
    found: Option<(Seq<int>, Seq<int>, Seq<int>)>,
) -> bool {
    match found {
        Some((t, sa, o)) => match r {
            Ok(()) => t.len() == 0 && sa.len() == 0 && o.len() == 0,
            Err(ChangeError::DustInputs { transparent, sapling, orchard }) => {
                &&& t.len() + sa.len() + o.len() > 0
                &&& transparent@ == pick(s.t_in_ids, t)
                &&& clones_of(s.s_in_ids, sa, sapling@)
                &&& clones_of(s.o_in_ids, o, orchard@)
            },
            _ => false,
        },
        None => r matches Err(ChangeError::BundleError(message)) && message@
            == "Spends not allowed in coinbase bundles"@,
    }
}

/// Counts the notes of the Ironwood pool in a list of kinds.
fn count_kinds(kinds: &Vec<bool>) -> (r: usize)
    ensures
        r == count_set(kinds@),
{
    let mut count: usize = 0;
    let mut i: usize = 0;
    while i < kinds.len()
        invariant
            i <= kinds.len(),
            count == count_set(kinds@.take(i as int)),
            count <= i,
        decreases kinds.len() - i,
    {
        assert(kinds@.take(i as int + 1).drop_last() =~= kinds@.take(i as int));
        if kinds[i] {
            count = count + 1;
        }
        i = i + 1;
    }
    assert(kinds@.take(i as int) =~= kinds@);
    count
}

/// Only inputs that are worth no more than the marginal fee are reported as uneconomic: an input
/// that is worth more is never excluded.
pub proof fn lemma_valuable_inputs_are_kept<N>(
    s: Shape<N>,
    marginal_fee: nat,
    version: BundleVersion,
    orchard_outputs_are_ironwood: bool,
    grace_actions: usize,
    possible_change: Seq<OutputManifest>,
)
    requires
        s.o_in_ironwood.len() == s.o_in.len(),
    ensures
        s.uneconomic(
            marginal_fee,
            version,
            orchard_outputs_are_ironwood,
            grace_actions,
            possible_change,
        ) matches Some((t, sa, o)) ==> {
            &&& forall|k: int| 0 <= k < t.len() ==> s.t_in[#[trigger] t[k]] <= marginal_fee
            &&& forall|k: int| 0 <= k < sa.len() ==> s.s_in[#[trigger] sa[k]] <= marginal_fee
            &&& forall|k: int| 0 <= k < o.len() ==> s.o_in[#[trigger] o[k]] <= marginal_fee
        },
{
    reveal(Shape::uneconomic);
    lemma_dust_positions(s.t_in, marginal_fee);
    lemma_dust_positions(s.s_in, marginal_fee);
    lemma_dust_positions(s.o_in, marginal_fee);
    let counts = s.dust_counts(marginal_fee, version, orchard_outputs_are_ironwood, grace_actions);
    let kinds = s.dust_kinds(marginal_fee);
    if let Some(allowed) = counts.least_allowed(kinds, possible_change) {
        lemma_beyond_allowed_subset(
            dust(s.o_in, marginal_fee),
            kinds,
            allowed.orchard as nat,
            allowed.ironwood as nat,
        );
    }
}

/// No note is beyond those allowed if there is room for all notes of either kind.
proof fn lemma_beyond_allowed_none(at: Seq<int>, kinds: Seq<bool>, orchard: nat, ironwood: nat)
    requires
        at.len() == kinds.len(),
    ensures
        beyond_allowed(at, kinds, orchard, ironwood).len() == 0 <==> at.len() - count_set(kinds)
            <= orchard && count_set(kinds) <= ironwood,
    decreases at.len(),
{
    if at.len() > 0 {
        let rest_at = at.skip(1);
        let rest_kinds = kinds.skip(1);
        lemma_count_set_skip(kinds);
        lemma_count_set_bound(kinds);
        lemma_count_set_bound(rest_kinds);
        if kinds[0] && ironwood > 0 {
            lemma_beyond_allowed_none(rest_at, rest_kinds, orchard, (ironwood - 1) as nat);
        } else if !kinds[0] && orchard > 0 {
            lemma_beyond_allowed_none(rest_at, rest_kinds, (orchard - 1) as nat, ironwood);
        } else {
            lemma_beyond_allowed_none(rest_at, rest_kinds, orchard, ironwood);
        }
    }
}

/// Inputs are economic under all changes of two lists together just if they are under those of the
/// one and under those of the other: a further possible change never makes uneconomic inputs
/// economic.
pub proof fn lemma_economic_under_every_change<N>(
    s: Shape<N>,
    marginal_fee: nat,
    version: BundleVersion,
    orchard_outputs_are_ironwood: bool,
    grace_actions: usize,
    first: Seq<OutputManifest>,
    second: Seq<OutputManifest>,
)
    requires
        first.len() > 0,
        second.len() > 0,
    ensures
        s.economic(
            marginal_fee,
            version,
            orchard_outputs_are_ironwood,
            grace_actions,
            first + second,
        ) <==> s.economic(
            marginal_fee,
            version,
            orchard_outputs_are_ironwood,
            grace_actions,
            first,
        ) && s.economic(
            marginal_fee,
            version,
            orchard_outputs_are_ironwood,
            grace_actions,
            second,
        ),
{
    reveal(Shape::uneconomic);
    let counts = s.dust_counts(marginal_fee, version, orchard_outputs_are_ironwood, grace_actions);
    let kinds = s.dust_kinds(marginal_fee);
    let o_dust = dust(s.o_in, marginal_fee);
    counts.lemma_least_allowed_joined(kinds, first, second);
    if let (Some(l), Some(r)) = (
        counts.least_allowed(kinds, first),
        counts.least_allowed(kinds, second),
    ) {
        let both = l.least(r);
        lemma_beyond_allowed_none(o_dust, kinds, l.orchard as nat, l.ironwood as nat);
        lemma_beyond_allowed_none(o_dust, kinds, r.orchard as nat, r.ironwood as nat);
        lemma_beyond_allowed_none(o_dust, kinds, both.orchard as nat, both.ironwood as nat);
    }
}

} // verus!
