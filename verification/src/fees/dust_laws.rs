//! Which inputs are worth spending, in terms of what a transaction has with them and without.

use vstd::pervasive::cloned;
use vstd::prelude::*;

use crate::pool::BundleVersion;
use crate::value::Zatoshis;

use super::common::count_set;
use super::common::lemma_count_set_bound;
use super::common::shape;
use super::common::OutputManifest;
use super::common::Shape;
use super::dust::after_first;
use super::dust::beyond_allowed;
use super::dust::check_for_uneconomic_inputs;
use super::dust::dust;
use super::dust::first_excess;
use super::dust::lemma_economic_under_every_change;
use super::dust::pick;
use super::dust::AllowedDust;
use super::dust::DustCounts;
use super::orchard::BundleView;
use super::orchard::InputView;
use super::orchard::OutputView;
use super::sapling;
use super::sapling::BundleType;
use super::ChangeError;
use super::EphemeralBalance;
use super::TransparentInput;
use super::TransparentOutput;

verus! {

/// The number of actions of a bundle that is padded to two if it has any.
pub open spec fn padded(actions: int) -> int {
    if actions == 1 {
        2
    } else {
        actions
    }
}

/// The greater of two numbers.
pub open spec fn most(a: int, b: int) -> int {
    if a >= b {
        a
    } else {
        b
    }
}

/// What a transaction has in each pool: its inputs, and its outputs with the change.
pub struct PoolCounts {
    pub t_in: int,
    pub t_out: int,
    pub s_in: int,
    pub s_out: int,
    pub o_in: int,
    pub o_out: int,
    pub i_in: int,
    pub i_out: int,
}

impl PoolCounts {
    /// The number of logical actions: an input and an output of the transparent part share one, and
    /// so do a spend and an output of a shielded pool. There are at least two in a shielded pool that
    /// has any, or that must have a bundle. In the Orchard pool from NU6.3 on, where an action cannot
    /// pay another receiver than that of the note it spends, they share none.
    #[verifier::opaque]
    pub open spec fn actions(self, version: BundleVersion, sapling_required: bool) -> int {
        let sapling = if self.s_in == 0 && self.s_out == 0 && !sapling_required {
            0
        } else {
            most(self.s_in, most(self.s_out, 2))
        };
        let orchard = if version is OrchardV3 {
            padded(self.o_in + self.o_out)
        } else {
            padded(most(self.o_in, self.o_out))
        };
        most(self.t_in, self.t_out) + sapling + orchard + padded(most(self.i_in, self.i_out))
    }
}

impl DustCounts {
    /// What the transaction has with the given dust inputs beside those that are no dust.
    pub open spec fn spending(self, change: OutputManifest, spent: AllowedDust) -> PoolCounts {
        PoolCounts {
            t_in: self.t_non_dust + spent.transparent,
            t_out: self.t_outputs + change.transparent,
            s_in: self.s_non_dust + spent.sapling,
            s_out: self.s_outputs + change.sapling,
            o_in: self.orchard_non_dust + spent.orchard,
            o_out: self.orchard_outputs + change.orchard,
            i_in: self.ironwood_non_dust + spent.ironwood,
            i_out: self.ironwood_outputs + change.ironwood,
        }
    }

    /// Whether the numbers are those of a transaction that can have Sapling spends, with dust notes
    /// of the given kinds.
    pub open spec fn counted(self, kinds: Seq<bool>, change: OutputManifest) -> bool {
        &&& self.fits(change)
        &&& self.s_type is Transactional
        &&& self.ironwood_dust == count_set(kinds)
        &&& self.orchard_dust == kinds.len() - count_set(kinds)
    }

    /// Whether a Sapling bundle must be there.
    pub open spec fn sapling_required(self) -> bool {
        self.s_type matches BundleType::Transactional { bundle_required } && bundle_required
    }

    /// The number of logical actions with the given dust inputs is that of what the transaction then
    /// has.
    proof fn lemma_actions_of(self, change: OutputManifest, spent: AllowedDust)
        requires
            self.s_type is Transactional,
        ensures
            self.actions(change, spent) == Some(
                self.spending(change, spent).actions(self.version, self.sapling_required()) as nat,
            ),
            self.spending(change, spent).actions(self.version, self.sapling_required()) >= 0,
    {
        reveal(PoolCounts::actions);
    }

    /// The dust inputs that outputs pay for take no pool beyond its outputs and its inputs that are
    /// no dust, and are all of them if there is room.
    proof fn lemma_paid(self, change: OutputManifest)
        requires
            self.fits(change),
        ensures
            ({
                let paid = self.paid(change);
                let has = self.spending(change, paid);
                &&& paid.transparent <= self.t_dust
                &&& has.t_in <= most(has.t_out, self.t_non_dust as int)
                &&& paid.transparent < self.t_dust ==> has.t_in == most(
                    has.t_out,
                    self.t_non_dust as int,
                )
                &&& paid.sapling <= self.s_dust
                &&& has.s_in <= most(has.s_out, self.s_non_dust as int)
                &&& paid.sapling < self.s_dust ==> has.s_in == most(
                    has.s_out,
                    self.s_non_dust as int,
                )
                &&& paid.orchard <= self.orchard_dust
                &&& has.o_in <= most(has.o_out, self.orchard_non_dust as int)
                &&& paid.orchard < self.orchard_dust ==> has.o_in == most(
                    has.o_out,
                    self.orchard_non_dust as int,
                )
                &&& paid.ironwood <= self.ironwood_dust
                &&& has.i_in <= most(has.i_out, self.ironwood_non_dust as int)
                &&& paid.ironwood < self.ironwood_dust ==> has.i_in == most(
                    has.i_out,
                    self.ironwood_non_dust as int,
                )
            }),
    {
    }

    /// The dust inputs that are allowed are those that outputs pay for, or one more of a pool.
    proof fn lemma_allowed_cases(self, kinds: Seq<bool>, change: OutputManifest)
        requires
            self.counted(kinds, change),
        ensures
            ({
                let paid = self.paid(change);
                let has = self.spending(change, paid);
                let v = self.version;
                let required = self.sapling_required();
                let base = has.actions(v, required);
                let t = self.t_dust > paid.transparent && (PoolCounts {
                    t_in: has.t_in + 1,
                    ..has
                }).actions(v, required) <= base;
                let sa = self.s_dust > paid.sapling && (PoolCounts {
                    s_in: has.s_in + 1,
                    ..has
                }).actions(v, required) <= base;
                let o = (PoolCounts { o_in: has.o_in + 1, ..has }).actions(v, required) <= base;
                let i = (PoolCounts { i_in: has.i_in + 1, ..has }).actions(v, required) <= base;
                let next = first_excess(kinds, paid.orchard as nat, paid.ironwood as nat);
                self.allowed(kinds, change) == Some(
                    if base >= self.grace_actions {
                        paid
                    } else if t {
                        AllowedDust { transparent: (paid.transparent + 1) as usize, ..paid }
                    } else if sa {
                        AllowedDust { sapling: (paid.sapling + 1) as usize, ..paid }
                    } else if next == Some(true) && i {
                        AllowedDust { ironwood: (paid.ironwood + 1) as usize, ..paid }
                    } else if next == Some(false) && o {
                        AllowedDust { orchard: (paid.orchard + 1) as usize, ..paid }
                    } else {
                        paid
                    },
                )
            }),
    {
        reveal(DustCounts::allowed);
        let paid = self.paid(change);
        let has = self.spending(change, paid);
        let one_t = AllowedDust { transparent: (paid.transparent + 1) as usize, ..paid };
        let one_s = AllowedDust { sapling: (paid.sapling + 1) as usize, ..paid };
        let one_o = AllowedDust { orchard: (paid.orchard + 1) as usize, ..paid };
        let one_i = AllowedDust { ironwood: (paid.ironwood + 1) as usize, ..paid };
        self.lemma_paid(change);
        self.lemma_actions_of(change, paid);
        self.lemma_actions_of(change, one_t);
        self.lemma_actions_of(change, one_s);
        self.lemma_actions_of(change, one_o);
        self.lemma_actions_of(change, one_i);
        assert(self.spending(change, one_t) == (PoolCounts { t_in: has.t_in + 1, ..has }));
        assert(self.spending(change, one_s) == (PoolCounts { s_in: has.s_in + 1, ..has }));
        assert(self.spending(change, one_o) == (PoolCounts { o_in: has.o_in + 1, ..has }));
        assert(self.spending(change, one_i) == (PoolCounts { i_in: has.i_in + 1, ..has }));
    }
}

/// With more inputs a transaction does not have fewer logical actions.
proof fn lemma_actions_grow(a: PoolCounts, b: PoolCounts, version: BundleVersion, required: bool)
    requires
        0 <= a.t_in <= b.t_in,
        0 <= a.s_in <= b.s_in,
        0 <= a.o_in <= b.o_in,
        0 <= a.i_in <= b.i_in,
        0 <= a.t_out == b.t_out,
        0 <= a.s_out == b.s_out,
        0 <= a.o_out == b.o_out,
        0 <= a.i_out == b.i_out,
    ensures
        a.actions(version, required) <= b.actions(version, required),
{
    reveal(PoolCounts::actions);
}

/// How many more inputs a pool has than both its outputs and its inputs that are no dust.
pub open spec fn excess(inputs: int, outputs: int, non_dust: int) -> int {
    if inputs > most(outputs, non_dust) {
        inputs - most(outputs, non_dust)
    } else {
        0
    }
}

impl DustCounts {
    /// How many more inputs the pools have with the given dust inputs than both their outputs and
    /// their inputs that are no dust.
    pub open spec fn total_excess(self, change: OutputManifest, spent: AllowedDust) -> int {
        let has = self.spending(change, spent);
        excess(has.t_in, has.t_out, self.t_non_dust as int) + excess(
            has.s_in,
            has.s_out,
            self.s_non_dust as int,
        ) + excess(has.o_in, has.o_out, self.orchard_non_dust as int) + excess(
            has.i_in,
            has.i_out,
            self.ironwood_non_dust as int,
        )
    }
}

/// The dust inputs that are allowed in a pool, beside the inputs that are no dust, are no more than
/// its outputs with the change, or there are none: but for one input, and that only while the
/// transaction has fewer logical actions than are paid for in any case. So where the logical actions
/// reach the grace actions, allowed dust needs no input in any pool beyond the greater of its outputs
/// and its inputs that are no dust.
#[verifier::spinoff_prover]
#[verifier::rlimit(40)]
pub proof fn lemma_allowed_dust_is_free(
    counts: DustCounts,
    kinds: Seq<bool>,
    change: OutputManifest,
)
    requires
        counts.counted(kinds, change),
    ensures
        counts.allowed(kinds, change) matches Some(allowed) && {
            let has = counts.spending(change, allowed);
            let bare = counts.spending(
                change,
                AllowedDust { transparent: 0, sapling: 0, orchard: 0, ironwood: 0 },
            );
            let required = counts.sapling_required();
            &&& allowed.transparent <= counts.t_dust
            &&& allowed.sapling <= counts.s_dust
            &&& allowed.orchard <= counts.orchard_dust
            &&& allowed.ironwood <= counts.ironwood_dust
            &&& counts.total_excess(change, allowed) <= 1
            &&& has.actions(counts.version, required) >= counts.grace_actions || bare.actions(
                counts.version,
                required,
            ) >= counts.grace_actions ==> {
                &&& has.t_in <= most(has.t_out, counts.t_non_dust as int)
                &&& has.s_in <= most(has.s_out, counts.s_non_dust as int)
                &&& has.o_in <= most(has.o_out, counts.orchard_non_dust as int)
                &&& has.i_in <= most(has.i_out, counts.ironwood_non_dust as int)
            }
        },
{
    let paid = counts.paid(change);
    let none = AllowedDust { transparent: 0, sapling: 0, orchard: 0, ironwood: 0 };
    lemma_excess_kind(kinds, paid.orchard as nat, paid.ironwood as nat);
    counts.lemma_paid(change);
    counts.lemma_allowed_cases(kinds, change);
    lemma_actions_grow(
        counts.spending(change, none),
        counts.spending(change, paid),
        counts.version,
        counts.sapling_required(),
    );
    let allowed = counts.allowed(kinds, change)->0;
    let has = counts.spending(change, paid);
    let more = counts.spending(change, allowed);
    assert(more == has || more == (PoolCounts { t_in: has.t_in + 1, ..has }) || more == (
    PoolCounts { s_in: has.s_in + 1, ..has }) || more == (PoolCounts { o_in: has.o_in + 1, ..has })
        || more == (PoolCounts { i_in: has.i_in + 1, ..has }));
}

/// The dust inputs that are left out of a pool are left out because its other inputs are at least
/// as many as its outputs with the change.
pub proof fn lemma_room_is_used(counts: DustCounts, kinds: Seq<bool>, change: OutputManifest)
    requires
        counts.counted(kinds, change),
    ensures
        counts.allowed(kinds, change) matches Some(allowed) && {
            let has = counts.spending(change, allowed);
            &&& allowed.transparent < counts.t_dust ==> has.t_in >= has.t_out
            &&& allowed.sapling < counts.s_dust ==> has.s_in >= has.s_out
            &&& allowed.orchard < counts.orchard_dust ==> has.o_in >= has.o_out
            &&& allowed.ironwood < counts.ironwood_dust ==> has.i_in >= has.i_out
        },
{
    counts.lemma_paid(change);
    counts.lemma_allowed_cases(kinds, change);
}

/// Where dust inputs are left out of the transparent part or of the Sapling pool, no pool was given
/// one beyond what its outputs pay for and the grace actions are not reached, spending one more of
/// them would need another logical action.
#[verifier::spinoff_prover]
#[verifier::rlimit(40)]
pub proof fn lemma_grace_is_used(counts: DustCounts, kinds: Seq<bool>, change: OutputManifest)
    requires
        counts.counted(kinds, change),
    ensures
        counts.allowed(kinds, change) matches Some(allowed) && {
            let has = counts.spending(change, allowed);
            let required = counts.sapling_required();
            let now = has.actions(counts.version, required);
            counts.total_excess(change, allowed) == 0 && now < counts.grace_actions ==> {
                &&& allowed.transparent < counts.t_dust ==> (PoolCounts {
                    t_in: has.t_in + 1,
                    ..has
                }).actions(counts.version, required) > now
                &&& allowed.sapling < counts.s_dust ==> (PoolCounts {
                    s_in: has.s_in + 1,
                    ..has
                }).actions(counts.version, required) > now
                &&& allowed.orchard < counts.orchard_dust && allowed.ironwood
                    == counts.ironwood_dust ==> (PoolCounts { o_in: has.o_in + 1, ..has }).actions(
                    counts.version,
                    required,
                ) > now
                &&& allowed.ironwood < counts.ironwood_dust && allowed.orchard
                    == counts.orchard_dust ==> (PoolCounts { i_in: has.i_in + 1, ..has }).actions(
                    counts.version,
                    required,
                ) > now
            }
        },
{
    let paid = counts.paid(change);
    lemma_excess_kind(kinds, paid.orchard as nat, paid.ironwood as nat);
    counts.lemma_paid(change);
    counts.lemma_allowed_cases(kinds, change);
}

/// There is a note for which there is no room just if the room does not suffice for all notes of
/// its kind.
proof fn lemma_excess_kind(kinds: Seq<bool>, orchard: nat, ironwood: nat)
    ensures
        match first_excess(kinds, orchard, ironwood) {
            Some(true) => ironwood < count_set(kinds),
            Some(false) => orchard < kinds.len() - count_set(kinds),
            None => ironwood >= count_set(kinds) && orchard >= kinds.len() - count_set(kinds),
        },
    decreases kinds.len(),
{
    lemma_count_set_bound(kinds);
    if kinds.len() > 0 {
        let rest = kinds.skip(1);
        lemma_count_set_first(kinds);
        lemma_count_set_bound(rest);
        if kinds[0] {
            if ironwood > 0 {
                lemma_excess_kind(rest, orchard, (ironwood - 1) as nat);
            }
        } else if orchard > 0 {
            lemma_excess_kind(rest, (orchard - 1) as nat, ironwood);
        }
    }
}

/// Counting can start at the front as well.
proof fn lemma_count_set_first(flags: Seq<bool>)
    requires
        flags.len() > 0,
    ensures
        count_set(flags) == count_set(flags.skip(1)) + if flags[0] {
            1nat
        } else {
            0
        },
    decreases flags.len(),
{
    if flags.len() == 1 {
        assert(flags.skip(1) =~= Seq::empty());
        assert(flags.drop_last() =~= Seq::empty());
        assert(count_set(flags.drop_last()) == 0);
    } else {
        lemma_count_set_first(flags.drop_last());
        assert(flags.skip(1).drop_last() =~= flags.drop_last().skip(1));
    }
}

/// All dust inputs are allowed just if spending all of them takes no pool beyond its outputs and its
/// inputs that are no dust, or takes one pool beyond them by one input for which no other logical
/// action is needed, while the grace actions are not reached.
#[verifier::spinoff_prover]
#[verifier::rlimit(40)]
pub proof fn lemma_all_dust_allowed(counts: DustCounts, kinds: Seq<bool>, change: OutputManifest)
    requires
        counts.counted(kinds, change),
    ensures
        ({
            let all = AllowedDust {
                transparent: counts.t_dust,
                sapling: counts.s_dust,
                orchard: counts.orchard_dust,
                ironwood: counts.ironwood_dust,
            };
            let has = counts.spending(change, all);
            let without = PoolCounts {
                t_in: has.t_in - excess(has.t_in, has.t_out, counts.t_non_dust as int),
                s_in: has.s_in - excess(has.s_in, has.s_out, counts.s_non_dust as int),
                o_in: has.o_in - excess(has.o_in, has.o_out, counts.orchard_non_dust as int),
                i_in: has.i_in - excess(has.i_in, has.i_out, counts.ironwood_non_dust as int),
                ..has
            };
            let required = counts.sapling_required();
            counts.allowed(kinds, change) == Some(all) <==> {
                ||| counts.total_excess(change, all) == 0
                ||| counts.total_excess(change, all) == 1 && has.actions(counts.version, required)
                    <= without.actions(counts.version, required) && without.actions(
                    counts.version,
                    required,
                ) < counts.grace_actions
            }
        }),
{
    let paid = counts.paid(change);
    let all = AllowedDust {
        transparent: counts.t_dust,
        sapling: counts.s_dust,
        orchard: counts.orchard_dust,
        ironwood: counts.ironwood_dust,
    };
    lemma_excess_kind(kinds, paid.orchard as nat, paid.ironwood as nat);
    counts.lemma_paid(change);
    counts.lemma_allowed_cases(kinds, change);
    let has = counts.spending(change, all);
    let without = PoolCounts {
        t_in: has.t_in - excess(has.t_in, has.t_out, counts.t_non_dust as int),
        s_in: has.s_in - excess(has.s_in, has.s_out, counts.s_non_dust as int),
        o_in: has.o_in - excess(has.o_in, has.o_out, counts.orchard_non_dust as int),
        i_in: has.i_in - excess(has.i_in, has.i_out, counts.ironwood_non_dust as int),
        ..has
    };
    assert(without == counts.spending(change, paid));
}

/// How many of some inputs are worth more than a limit.
pub open spec fn worth_more(worths: Seq<nat>, limit: nat) -> int
    decreases worths.len(),
{
    if worths.len() == 0 {
        0
    } else {
        worth_more(worths.drop_last(), limit) + if worths.last() > limit {
            1int
        } else {
            0
        }
    }
}

/// How many of some notes are of a kind and worth more than a limit.
pub open spec fn worth_more_of(worths: Seq<nat>, kinds: Seq<bool>, kind: bool, limit: nat) -> int
    decreases worths.len(),
{
    if worths.len() == 0 {
        0
    } else {
        worth_more_of(worths.drop_last(), kinds.drop_last(), kind, limit) + if worths.last() > limit
            && kinds.last() == kind {
            1int
        } else {
            0
        }
    }
}

/// How many more inputs the pools have than both their outputs and their inputs that are no dust.
pub struct Excess {
    pub t: int,
    pub s: int,
    pub o: int,
    pub i: int,
}

impl<N> Shape<N> {
    /// What the transaction has in each pool with all inputs and with a change, when the outputs of
    /// the Orchard bundle go to the Ironwood pool or do not.
    pub open spec fn with_all_inputs(self, change: OutputManifest, ironwood: bool) -> PoolCounts {
        PoolCounts {
            t_in: self.t_in.len() + if self.ephemeral is Some && self.ephemeral->0 is Input {
                1int
            } else {
                0
            },
            t_out: self.t_out.len() + change.transparent + if self.ephemeral is Some
                && self.ephemeral->0 is Output {
                1int
            } else {
                0
            },
            s_in: self.s_in.len() as int,
            s_out: self.s_out.len() + change.sapling,
            o_in: self.o_in.len() - count_set(self.o_in_ironwood),
            o_out: change.orchard + if ironwood {
                0
            } else {
                self.o_out.len() as int
            },
            i_in: count_set(self.o_in_ironwood) as int,
            i_out: change.ironwood + if ironwood {
                self.o_out.len() as int
            } else {
                0
            },
        }
    }

    /// How many more inputs the pools have than both their outputs and their inputs that are worth
    /// more than a limit, as an ephemeral input always counts.
    pub open spec fn excess_inputs(self, limit: nat, change: OutputManifest, ironwood: bool) -> Excess {
        let has = self.with_all_inputs(change, ironwood);
        Excess {
            t: excess(
                has.t_in,
                has.t_out,
                worth_more(self.t_in, limit) + has.t_in - self.t_in.len(),
            ),
            s: excess(has.s_in, has.s_out, worth_more(self.s_in, limit)),
            o: excess(
                has.o_in,
                has.o_out,
                worth_more_of(self.o_in, self.o_in_ironwood, false, limit),
            ),
            i: excess(
                has.i_in,
                has.i_out,
                worth_more_of(self.o_in, self.o_in_ironwood, true, limit),
            ),
        }
    }

    /// Whether no input is spent in vain with a change: in no pool are there more inputs than both
    /// its outputs and its inputs that are worth more than the fee of an action; or there is one such
    /// input in one pool, the others have fewer logical actions than are paid for in any case, and
    /// they have no fewer than all inputs together.
    pub open spec fn worth_spending(
        self,
        marginal_fee: nat,
        version: BundleVersion,
        ironwood: bool,
        grace_actions: usize,
        change: OutputManifest,
    ) -> bool {
        let has = self.with_all_inputs(change, ironwood);
        let over = self.excess_inputs(marginal_fee, change, ironwood);
        let without = PoolCounts {
            t_in: has.t_in - over.t,
            s_in: has.s_in - over.s,
            o_in: has.o_in - over.o,
            i_in: has.i_in - over.i,
            ..has
        };
        let required = self.s_type == (BundleType::Transactional { bundle_required: true });
        ||| over.t + over.s + over.o + over.i == 0
        ||| {
            &&& over.t + over.s + over.o + over.i == 1
            &&& without.actions(version, required) < grace_actions
            &&& has.actions(version, required) <= without.actions(version, required)
        }
    }
}

/// Each input is either dust or worth more.
proof fn lemma_dust_or_worth_more(worths: Seq<nat>, limit: nat)
    ensures
        dust(worths, limit).len() + worth_more(worths, limit) == worths.len(),
        0 <= worth_more(worths, limit),
    decreases worths.len(),
{
    if worths.len() > 0 {
        lemma_dust_or_worth_more(worths.drop_last(), limit);
    }
}

/// The places of dust are places of inputs.
proof fn lemma_dust_in_range(worths: Seq<nat>, limit: nat)
    ensures
        forall|k: int|
            0 <= k < dust(worths, limit).len() ==> 0 <= #[trigger] dust(worths, limit)[k]
                < worths.len() && worths[dust(worths, limit)[k]] <= limit,
        forall|j: int, k: int|
            0 <= j < k < dust(worths, limit).len() ==> #[trigger] dust(worths, limit)[j]
                < #[trigger] dust(worths, limit)[k],
        forall|p: int|
            0 <= p < worths.len() && #[trigger] worths[p] <= limit ==> dust(worths, limit).contains(
                p,
            ),
    decreases worths.len(),
{
    if worths.len() > 0 {
        let first = worths.drop_last();
        let before = dust(first, limit);
        let all = dust(worths, limit);
        lemma_dust_in_range(first, limit);
        assert forall|p: int|
            0 <= p < worths.len() && #[trigger] worths[p] <= limit implies all.contains(p) by {
            if p < first.len() {
                assert(first[p] == worths[p]);
                assert(before.contains(p));
                let j = choose|j: int| 0 <= j < before.len() && before[j] == p;
                assert(all[j] == p);
            } else {
                assert(all[all.len() - 1] == p);
            }
        }
    }
}

/// Each note of a kind is either dust or worth more.
proof fn lemma_kinds_or_worth_more(worths: Seq<nat>, kinds: Seq<bool>, limit: nat)
    requires
        kinds.len() == worths.len(),
    ensures
        count_set(pick(kinds, dust(worths, limit))) + worth_more_of(worths, kinds, true, limit)
            == count_set(kinds),
        dust(worths, limit).len() - count_set(pick(kinds, dust(worths, limit))) + worth_more_of(
            worths,
            kinds,
            false,
            limit,
        ) == worths.len() - count_set(kinds),
        0 <= worth_more_of(worths, kinds, true, limit),
        0 <= worth_more_of(worths, kinds, false, limit),
    decreases worths.len(),
{
    if worths.len() > 0 {
        let before = dust(worths.drop_last(), limit);
        lemma_kinds_or_worth_more(worths.drop_last(), kinds.drop_last(), limit);
        lemma_dust_in_range(worths.drop_last(), limit);
        assert(pick(kinds.drop_last(), before) =~= pick(kinds, before));
        if worths.last() <= limit {
            let all = pick(kinds, dust(worths, limit));
            assert(all.drop_last() =~= pick(kinds, before));
        }
    } else {
        assert(pick(kinds, dust(worths, limit)) =~= Seq::empty());
    }
}

/// The numbers that decide on dust are those of a transaction.
#[verifier::spinoff_prover]
#[verifier::rlimit(40)]
proof fn lemma_counts_of<N>(
    s: Shape<N>,
    marginal_fee: nat,
    version: BundleVersion,
    ironwood: bool,
    grace_actions: usize,
    change: OutputManifest,
)
    requires
        s.s_type is Transactional,
        s.fits(change.size()),
        s.o_in_ironwood.len() == s.o_in.len(),
    ensures
        ({
            let counts = s.dust_counts(marginal_fee, version, ironwood, grace_actions);
            let all = AllowedDust {
                transparent: counts.t_dust,
                sapling: counts.s_dust,
                orchard: counts.orchard_dust,
                ironwood: counts.ironwood_dust,
            };
            let over = s.excess_inputs(marginal_fee, change, ironwood);
            let has = s.with_all_inputs(change, ironwood);
            &&& counts.counted(s.dust_kinds(marginal_fee), change)
            &&& counts.spending(change, all) == has
            &&& over.t == excess(has.t_in, has.t_out, counts.t_non_dust as int)
            &&& over.s == excess(has.s_in, has.s_out, counts.s_non_dust as int)
            &&& over.o == excess(has.o_in, has.o_out, counts.orchard_non_dust as int)
            &&& over.i == excess(has.i_in, has.i_out, counts.ironwood_non_dust as int)
            &&& counts.sapling_required() == (s.s_type == (BundleType::Transactional {
                bundle_required: true,
            }))
            &&& counts.version == version
            &&& counts.grace_actions == grace_actions
        }),
{
    lemma_dust_or_worth_more(s.t_in, marginal_fee);
    lemma_dust_or_worth_more(s.s_in, marginal_fee);
    lemma_dust_or_worth_more(s.o_in, marginal_fee);
    lemma_kinds_or_worth_more(s.o_in, s.o_in_ironwood, marginal_fee);
    lemma_count_set_bound(s.o_in_ironwood);
    lemma_count_set_bound(s.dust_kinds(marginal_fee));
}

/// Inputs are economic with a change just if none of them is spent in vain.
#[verifier::spinoff_prover]
#[verifier::rlimit(40)]
pub proof fn lemma_economic_with_change<N>(
    s: Shape<N>,
    marginal_fee: nat,
    version: BundleVersion,
    ironwood: bool,
    grace_actions: usize,
    change: OutputManifest,
)
    requires
        s.s_type is Transactional,
        s.fits(change.size()),
        s.o_in_ironwood.len() == s.o_in.len(),
    ensures
        s.economic(marginal_fee, version, ironwood, grace_actions, seq![change])
            <==> s.worth_spending(marginal_fee, version, ironwood, grace_actions, change),
{
    let counts = s.dust_counts(marginal_fee, version, ironwood, grace_actions);
    let kinds = s.dust_kinds(marginal_fee);
    let all = AllowedDust {
        transparent: counts.t_dust,
        sapling: counts.s_dust,
        orchard: counts.orchard_dust,
        ironwood: counts.ironwood_dust,
    };
    lemma_counts_of(s, marginal_fee, version, ironwood, grace_actions, change);
    lemma_all_dust_allowed(counts, kinds, change);
    lemma_allowed_is_bounded(counts, kinds, change);
    assert(seq![change][0] == change);
    let allowed = counts.allowed(kinds, change)->0;
    assert(counts.least_allowed(kinds, seq![change]) == Some(allowed));
    lemma_reported_counts(
        s,
        marginal_fee,
        version,
        ironwood,
        grace_actions,
        seq![change],
        change,
    );
    assert(s.economic(marginal_fee, version, ironwood, grace_actions, seq![change]) <==> allowed
        == all);
}

/// Inputs are economic under several possible changes just if none of them is spent in vain with any
/// of those.
pub proof fn lemma_economic_with_changes<N>(
    s: Shape<N>,
    marginal_fee: nat,
    version: BundleVersion,
    ironwood: bool,
    grace_actions: usize,
    possible: Seq<OutputManifest>,
)
    requires
        s.s_type is Transactional,
        possible.len() > 0,
        forall|c: int| 0 <= c < possible.len() ==> s.fits((#[trigger] possible[c]).size()),
        s.o_in_ironwood.len() == s.o_in.len(),
    ensures
        s.economic(marginal_fee, version, ironwood, grace_actions, possible) <==> forall|c: int|
            0 <= c < possible.len() ==> s.worth_spending(
                marginal_fee,
                version,
                ironwood,
                grace_actions,
                #[trigger] possible[c],
            ),
    decreases possible.len(),
{
    let last = possible.last();
    lemma_economic_with_change(s, marginal_fee, version, ironwood, grace_actions, last);
    if possible.len() > 1 {
        let first = possible.drop_last();
        lemma_economic_with_changes(s, marginal_fee, version, ironwood, grace_actions, first);
        lemma_economic_under_every_change(
            s,
            marginal_fee,
            version,
            ironwood,
            grace_actions,
            first,
            seq![last],
        );
        assert(first + seq![last] =~= possible);
        assert forall|c: int| 0 <= c < first.len() implies #[trigger] first[c] == possible[c] by {}
        if forall|c: int|
            0 <= c < first.len() ==> s.worth_spending(
                marginal_fee,
                version,
                ironwood,
                grace_actions,
                #[trigger] first[c],
            ) {
            assert forall|c: int| 0 <= c < possible.len() - 1 implies s.worth_spending(
                marginal_fee,
                version,
                ironwood,
                grace_actions,
                #[trigger] possible[c],
            ) by {
                assert(first[c] == possible[c]);
            }
        }
    } else {
        assert(possible =~= seq![last]);
    }
}

/// The check for uneconomic inputs passes just if no input is spent in vain, whichever of the
/// possible changes the transaction comes to have: a pool has no more inputs than it has outputs or
/// inputs that are worth more than the marginal fee, but for one while grace actions are left.
pub proof fn lemma_check_passes<NoteRefT: Clone, FeeError, O: BundleView<NoteRefT>>(
    transparent_inputs: &[TransparentInput],
    transparent_outputs: &[TransparentOutput],
    sapling: sapling::BundleView<NoteRefT>,
    orchard: O,
    version: BundleVersion,
    ironwood: bool,
    marginal_fee: Zatoshis,
    grace_actions: usize,
    possible: &[OutputManifest],
    ephemeral: Option<EphemeralBalance>,
    r: Result<(), ChangeError<FeeError, NoteRefT>>,
)
    requires
        call_ensures(
            check_for_uneconomic_inputs::<NoteRefT, FeeError, O>,
            (
                transparent_inputs,
                transparent_outputs,
                &sapling,
                &orchard,
                version,
                ironwood,
                marginal_fee,
                grace_actions,
                possible,
                ephemeral,
            ),
            r,
        ),
        sapling.bundle_type is Transactional,
        possible@.len() > 0,
        forall|c: int|
            0 <= c < possible@.len() ==> shape(
                transparent_inputs@,
                transparent_outputs@,
                sapling,
                orchard,
                ephemeral,
            ).fits((#[trigger] possible@[c]).size()),
    ensures
        r is Ok <==> forall|c: int|
            0 <= c < possible@.len() ==> shape(
                transparent_inputs@,
                transparent_outputs@,
                sapling,
                orchard,
                ephemeral,
            ).worth_spending(
                marginal_fee@,
                version,
                ironwood,
                grace_actions,
                #[trigger] possible@[c],
            ),
        r is Err ==> r->Err_0 is DustInputs,
{
    let s = shape(transparent_inputs@, transparent_outputs@, sapling, orchard, ephemeral);
    lemma_economic_with_changes(s, marginal_fee@, version, ironwood, grace_actions, possible@);
    lemma_answer_is_there(s, marginal_fee@, version, ironwood, grace_actions, possible@);
}

/// There is an answer for every transaction that can have Sapling spends.
pub proof fn lemma_answer_is_there<N>(
    s: Shape<N>,
    marginal_fee: nat,
    version: BundleVersion,
    ironwood: bool,
    grace_actions: usize,
    possible: Seq<OutputManifest>,
)
    requires
        s.s_type is Transactional,
        possible.len() > 0,
        forall|c: int| 0 <= c < possible.len() ==> s.fits((#[trigger] possible[c]).size()),
        s.o_in_ironwood.len() == s.o_in.len(),
    ensures
        s.uneconomic(marginal_fee, version, ironwood, grace_actions, possible) is Some,
        s.dust_counts(marginal_fee, version, ironwood, grace_actions).least_allowed(
            s.dust_kinds(marginal_fee),
            possible,
        ) is Some,
    decreases possible.len(),
{
    reveal(Shape::uneconomic);
    let counts = s.dust_counts(marginal_fee, version, ironwood, grace_actions);
    let kinds = s.dust_kinds(marginal_fee);
    lemma_counts_of(s, marginal_fee, version, ironwood, grace_actions, possible.last());
    lemma_allowed_dust_is_free(counts, kinds, possible.last());
    if possible.len() > 1 {
        let first = possible.drop_last();
        assert forall|c: int| 0 <= c < first.len() implies s.fits(
            (#[trigger] first[c]).size(),
        ) by {
            assert(first[c] == possible[c]);
        }
        lemma_answer_is_there(s, marginal_fee, version, ironwood, grace_actions, first);
    } else {
        assert(possible.last() == possible[0]);
    }
}

/// Whether places are in order, and are those of inputs that are worth no more than a limit, with
/// all such inputs that come after the first of them.
pub open spec fn last_dust(at: Seq<int>, worths: Seq<nat>, limit: nat) -> bool {
    &&& forall|k: int| 0 <= k < at.len() ==> 0 <= #[trigger] at[k] < worths.len() && worths[at[k]]
        <= limit
    &&& forall|j: int, k: int| 0 <= j < k < at.len() ==> #[trigger] at[j] < #[trigger] at[k]
    &&& forall|p: int|
        at.len() > 0 && at[0] <= p < worths.len() && #[trigger] worths[p] <= limit ==> at.contains(p)
}

/// Whether places are in order, and are those of notes that are worth no more than a limit, with all
/// such notes of the same kind that come after one of them.
pub open spec fn last_dust_of_kinds(
    at: Seq<int>,
    worths: Seq<nat>,
    kinds: Seq<bool>,
    limit: nat,
) -> bool {
    &&& forall|k: int| 0 <= k < at.len() ==> 0 <= #[trigger] at[k] < worths.len() && worths[at[k]]
        <= limit
    &&& forall|j: int, k: int| 0 <= j < k < at.len() ==> #[trigger] at[j] < #[trigger] at[k]
    &&& forall|k: int, p: int|
        0 <= k < at.len() && #[trigger] at[k] <= p < worths.len() && #[trigger] worths[p] <= limit
            && kinds[p] == kinds[at[k]] ==> at.contains(p)
}

/// What follows the first places of dust is the last dust.
proof fn lemma_after_first_is_last(worths: Seq<nat>, limit: nat, n: nat)
    ensures
        last_dust(after_first(dust(worths, limit), n), worths, limit),
        after_first(dust(worths, limit), n).len() == (if n <= dust(worths, limit).len() {
            dust(worths, limit).len() - n
        } else {
            0
        }),
{
    let at = dust(worths, limit);
    let rest = after_first(at, n);
    lemma_dust_in_range(worths, limit);
    if n <= at.len() {
        assert forall|p: int|
            rest.len() > 0 && rest[0] <= p < worths.len() && #[trigger] worths[p]
                <= limit implies rest.contains(p) by {
            assert(at.contains(p));
            let j = choose|j: int| 0 <= j < at.len() && at[j] == p;
            if j < n {
                assert(at[j] < at[n as int]);
            }
            assert(rest[j - n] == p);
        }
    }
}

/// The notes for which there is no room are the last of their kinds, and as many as the room lacks.
proof fn lemma_beyond_allowed_is_last(at: Seq<int>, kinds: Seq<bool>, orchard: nat, ironwood: nat)
    requires
        at.len() == kinds.len(),
        forall|j: int, k: int| 0 <= j < k < at.len() ==> #[trigger] at[j] < #[trigger] at[k],
    ensures
        ({
            let r = beyond_allowed(at, kinds, orchard, ironwood);
            &&& forall|k: int| 0 <= k < r.len() ==> at.contains(#[trigger] r[k])
            &&& forall|j: int, k: int| 0 <= j < k < r.len() ==> #[trigger] r[j] < #[trigger] r[k]
            &&& forall|j: int, l: int|
                0 <= j <= l < at.len() && kinds[j] == kinds[l] && r.contains(#[trigger] at[j])
                    ==> r.contains(#[trigger] at[l])
            &&& forall|j: int|
                0 <= j < at.len() && (if kinds[j] {
                    ironwood
                } else {
                    orchard
                }) == 0 ==> r.contains(#[trigger] at[j])
        }),
    decreases at.len(),
{
    if at.len() > 0 {
        let rest_at = at.skip(1);
        let rest_kinds = kinds.skip(1);
        let keep = (kinds[0] && ironwood > 0) || (!kinds[0] && orchard > 0);
        let next_orchard = if !kinds[0] && orchard > 0 {
            (orchard - 1) as nat
        } else {
            orchard
        };
        let next_ironwood = if kinds[0] && ironwood > 0 {
            (ironwood - 1) as nat
        } else {
            ironwood
        };
        let rest = beyond_allowed(rest_at, rest_kinds, next_orchard, next_ironwood);
        let r = beyond_allowed(at, kinds, orchard, ironwood);
        assert forall|j: int, k: int| 0 <= j < k < rest_at.len() implies #[trigger] rest_at[j]
            < #[trigger] rest_at[k] by {
            assert(rest_at[j] == at[j + 1] && rest_at[k] == at[k + 1]);
        }
        lemma_beyond_allowed_is_last(rest_at, rest_kinds, next_orchard, next_ironwood);
        assert forall|k: int| 0 <= k < rest.len() implies at.contains(#[trigger] rest[k]) && at[0]
            < rest[k] by {
            assert(rest_at.contains(rest[k]));
            let j = choose|j: int| 0 <= j < rest_at.len() && rest_at[j] == rest[k];
            assert(at[j + 1] == rest[k]);
            assert(at[0] < at[j + 1]);
        }
        if keep {
            assert(r == rest);
        } else {
            assert(r == seq![at[0]] + rest);
            assert(r[0] == at[0]);
            assert forall|k: int| 0 <= k < r.len() implies at.contains(#[trigger] r[k]) by {
                if k > 0 {
                    assert(r[k] == rest[k - 1]);
                } else {
                    assert(at[0] == r[0]);
                }
            }
            assert forall|j: int, k: int| 0 <= j < k < r.len() implies #[trigger] r[j]
                < #[trigger] r[k] by {
                assert(r[k] == rest[k - 1]);
                if j > 0 {
                    assert(r[j] == rest[j - 1]);
                }
            }
        }
        assert forall|p: int| rest.contains(p) implies #[trigger] r.contains(p) by {
            let k = choose|k: int| 0 <= k < rest.len() && rest[k] == p;
            if keep {
                assert(r[k] == p);
            } else {
                assert(r[k + 1] == p);
            }
        }
        assert forall|j: int|
            0 <= j < at.len() && (if kinds[j] {
                ironwood
            } else {
                orchard
            }) == 0 implies r.contains(#[trigger] at[j]) by {
            if j > 0 {
                assert(rest_at[j - 1] == at[j]);
                assert(rest_kinds[j - 1] == kinds[j]);
                assert(rest.contains(rest_at[j - 1]));
            }
        }
        assert forall|j: int, l: int|
            0 <= j <= l < at.len() && kinds[j] == kinds[l] && r.contains(
                #[trigger] at[j],
            ) implies r.contains(#[trigger] at[l]) by {
            if j > 0 {
                let k = choose|k: int| 0 <= k < r.len() && r[k] == at[j];
                assert(at[0] < at[j]);
                if !keep {
                    assert(k > 0);
                    assert(rest[k - 1] == at[j]);
                } else {
                    assert(rest[k] == at[j]);
                }
                assert(rest.contains(rest_at[j - 1]));
                assert(rest_kinds[j - 1] == rest_kinds[l - 1]);
                assert(rest_at[l - 1] == at[l]);
                assert(rest.contains(rest_at[l - 1]));
            } else if l > 0 {
                if keep {
                    let k = choose|k: int| 0 <= k < r.len() && r[k] == at[0];
                    assert(at[0] < rest[k]);
                } else {
                    assert(rest_at[l - 1] == at[l]);
                    assert(rest_kinds[l - 1] == kinds[l]);
                    assert(rest.contains(rest_at[l - 1]));
                }
            }
        }
    }
}

/// The inputs that are reported as uneconomic are worth no more than the marginal fee, and are the
/// last such ones of their pool: the most preferred ones are kept.
pub proof fn lemma_last_dust_is_reported<N>(
    s: Shape<N>,
    marginal_fee: nat,
    version: BundleVersion,
    ironwood: bool,
    grace_actions: usize,
    possible: Seq<OutputManifest>,
)
    requires
        s.o_in_ironwood.len() == s.o_in.len(),
    ensures
        s.uneconomic(marginal_fee, version, ironwood, grace_actions, possible) matches Some(
            (t, sa, o),
        ) ==> {
            &&& last_dust(t, s.t_in, marginal_fee)
            &&& last_dust(sa, s.s_in, marginal_fee)
            &&& last_dust_of_kinds(o, s.o_in, s.o_in_ironwood, marginal_fee)
        },
{
    reveal(Shape::uneconomic);
    let counts = s.dust_counts(marginal_fee, version, ironwood, grace_actions);
    let kinds = s.dust_kinds(marginal_fee);
    let at = dust(s.o_in, marginal_fee);
    lemma_dust_in_range(s.t_in, marginal_fee);
    lemma_dust_in_range(s.s_in, marginal_fee);
    lemma_dust_in_range(s.o_in, marginal_fee);
    if let Some(allowed) = counts.least_allowed(kinds, possible) {
        lemma_after_first_is_last(s.t_in, marginal_fee, allowed.transparent as nat);
        lemma_after_first_is_last(s.s_in, marginal_fee, allowed.sapling as nat);
        lemma_beyond_allowed_is_last(
            at,
            kinds,
            allowed.orchard as nat,
            allowed.ironwood as nat,
        );
        let o = beyond_allowed(at, kinds, allowed.orchard as nat, allowed.ironwood as nat);
        assert forall|k: int| 0 <= k < o.len() implies 0 <= #[trigger] o[k] < s.o_in.len()
            && s.o_in[o[k]] <= marginal_fee by {
            assert(at.contains(o[k]));
        }
        assert forall|k: int, p: int|
            0 <= k < o.len() && #[trigger] o[k] <= p < s.o_in.len() && #[trigger] s.o_in[p]
                <= marginal_fee && s.o_in_ironwood[p] == s.o_in_ironwood[o[k]] implies o.contains(
            p,
        ) by {
            assert(at.contains(o[k]) && at.contains(p));
            let j = choose|j: int| 0 <= j < at.len() && at[j] == o[k];
            let l = choose|l: int| 0 <= l < at.len() && at[l] == p;
            if l < j {
                assert(at[l] < at[j]);
            }
            assert(kinds[j] == kinds[l]);
            assert(o.contains(at[j]));
            assert(o.contains(at[l]));
        }
    }
}

/// What transparent inputs are worth.
pub open spec fn transparent_worths(inputs: Seq<TransparentInput>) -> Seq<nat> {
    inputs.map_values(|i: TransparentInput| i.value@)
}

/// What Sapling notes are worth.
pub open spec fn sapling_worths<NoteRefT>(inputs: Seq<sapling::NoteInput<NoteRefT>>) -> Seq<nat> {
    inputs.map_values(|i: sapling::NoteInput<NoteRefT>| i.value@)
}

/// What the notes that an Orchard bundle spends are worth.
pub open spec fn orchard_worths<NoteRefT, O: BundleView<NoteRefT>>(orchard: O) -> Seq<nat> {
    orchard.input_seq().map_values(|i: O::In| i.worth())
}

/// Which of the notes that an Orchard bundle spends are of the Ironwood pool.
pub open spec fn orchard_kinds<NoteRefT, O: BundleView<NoteRefT>>(orchard: O) -> Seq<bool> {
    orchard.input_seq().map_values(|i: O::In| i.of_ironwood())
}

/// The check for uneconomic inputs reports inputs under their own identifiers: each of them is worth
/// no more than the marginal fee, they are in the order of the inputs, and the inputs that are
/// reported of a pool are the last such ones.
pub proof fn lemma_reported_inputs<NoteRefT: Clone, FeeError, O: BundleView<NoteRefT>>(
    transparent_inputs: &[TransparentInput],
    transparent_outputs: &[TransparentOutput],
    sapling: sapling::BundleView<NoteRefT>,
    orchard: O,
    version: BundleVersion,
    ironwood: bool,
    marginal_fee: Zatoshis,
    grace_actions: usize,
    possible: &[OutputManifest],
    ephemeral: Option<EphemeralBalance>,
    r: Result<(), ChangeError<FeeError, NoteRefT>>,
)
    requires
        call_ensures(
            check_for_uneconomic_inputs::<NoteRefT, FeeError, O>,
            (
                transparent_inputs,
                transparent_outputs,
                &sapling,
                &orchard,
                version,
                ironwood,
                marginal_fee,
                grace_actions,
                possible,
                ephemeral,
            ),
            r,
        ),
    ensures
        r matches Err(ChangeError::DustInputs { transparent: ts, sapling: ss, orchard: os }) ==> {
            &&& ts@.len() + ss@.len() + os@.len() > 0
            &&& exists|t: Seq<int>| #[trigger]
                last_dust(
                    t,
                    transparent_worths(transparent_inputs@),
                    marginal_fee@,
                ) && t.len() == ts@.len() && forall|k: int|
                    0 <= k < t.len() ==> #[trigger] ts@[k] == transparent_inputs@[t[k]].outpoint
            &&& exists|sa: Seq<int>| #[trigger]
                last_dust(
                    sa,
                    sapling_worths(sapling.inputs@),
                    marginal_fee@,
                ) && sa.len() == ss@.len() && forall|k: int|
                    0 <= k < sa.len() ==> cloned(sapling.inputs@[sa[k]].note_id, #[trigger] ss@[k])
            &&& exists|o: Seq<int>| #[trigger]
                last_dust_of_kinds(
                    o,
                    orchard_worths(orchard),
                    orchard_kinds(orchard),
                    marginal_fee@,
                ) && o.len() == os@.len() && forall|k: int|
                    0 <= k < o.len() ==> cloned(orchard.input_seq()[o[k]].id(), #[trigger] os@[k])
        },
{
    let s = shape(transparent_inputs@, transparent_outputs@, sapling, orchard, ephemeral);
    lemma_last_dust_is_reported(s, marginal_fee@, version, ironwood, grace_actions, possible@);
    if let Err(ChangeError::DustInputs { transparent: ts, sapling: ss, orchard: os }) = r {
        let (t, sa, o) = s.uneconomic(
            marginal_fee@,
            version,
            ironwood,
            grace_actions,
            possible@,
        )->0;
        assert(last_dust(
            t,
            transparent_worths(transparent_inputs@),
            marginal_fee@,
        ));
        assert(sapling_worths(sapling.inputs@) =~= s.s_in);
        assert(last_dust(
            sa,
            sapling_worths(sapling.inputs@),
            marginal_fee@,
        ));
        assert(last_dust_of_kinds(
            o,
            orchard_worths(orchard),
            orchard_kinds(orchard),
            marginal_fee@,
        ));
    }
}

/// The number of notes for which there is no room.
proof fn lemma_beyond_allowed_len(at: Seq<int>, kinds: Seq<bool>, orchard: nat, ironwood: nat)
    requires
        at.len() == kinds.len(),
    ensures
        beyond_allowed(at, kinds, orchard, ironwood).len() == most(
            0,
            kinds.len() - count_set(kinds) - orchard,
        ) + most(0, count_set(kinds) - ironwood),
    decreases at.len(),
{
    lemma_count_set_bound(kinds);
    if at.len() > 0 {
        let rest_at = at.skip(1);
        let rest_kinds = kinds.skip(1);
        lemma_count_set_first(kinds);
        lemma_count_set_bound(rest_kinds);
        if kinds[0] && ironwood > 0 {
            lemma_beyond_allowed_len(rest_at, rest_kinds, orchard, (ironwood - 1) as nat);
        } else if !kinds[0] && orchard > 0 {
            lemma_beyond_allowed_len(rest_at, rest_kinds, (orchard - 1) as nat, ironwood);
        } else {
            lemma_beyond_allowed_len(rest_at, rest_kinds, orchard, ironwood);
        }
    }
}

/// What may be spent under all of the possible changes may be under each, and in each pool is all
/// that may be under one of them.
proof fn lemma_least_allowed_bounds(
    counts: DustCounts,
    kinds: Seq<bool>,
    possible: Seq<OutputManifest>,
)
    requires
        possible.len() > 0,
        counts.least_allowed(kinds, possible) is Some,
    ensures
        ({
            let least = counts.least_allowed(kinds, possible)->0;
            &&& forall|c: int|
                0 <= c < possible.len() ==> {
                    &&& counts.allowed(kinds, #[trigger] possible[c]) is Some
                    &&& least.transparent <= counts.allowed(kinds, possible[c])->0.transparent
                    &&& least.sapling <= counts.allowed(kinds, possible[c])->0.sapling
                    &&& least.orchard <= counts.allowed(kinds, possible[c])->0.orchard
                    &&& least.ironwood <= counts.allowed(kinds, possible[c])->0.ironwood
                }
            &&& exists|c: int|
                0 <= c < possible.len() && counts.allowed(
                    kinds,
                    #[trigger] possible[c],
                )->0.transparent == least.transparent
            &&& exists|c: int|
                0 <= c < possible.len() && counts.allowed(kinds, #[trigger] possible[c])->0.sapling
                    == least.sapling
        }),
    decreases possible.len(),
{
    let least = counts.least_allowed(kinds, possible)->0;
    if possible.len() > 1 {
        let first = possible.drop_last();
        lemma_least_allowed_bounds(counts, kinds, first);
        let before = counts.least_allowed(kinds, first)->0;
        let last = counts.allowed(kinds, possible.last())->0;
        assert(possible[possible.len() - 1] == possible.last());
        assert forall|c: int| 0 <= c < possible.len() implies {
            &&& counts.allowed(kinds, #[trigger] possible[c]) is Some
            &&& least.transparent <= counts.allowed(kinds, possible[c])->0.transparent
            &&& least.sapling <= counts.allowed(kinds, possible[c])->0.sapling
            &&& least.orchard <= counts.allowed(kinds, possible[c])->0.orchard
            &&& least.ironwood <= counts.allowed(kinds, possible[c])->0.ironwood
        } by {
            if c < first.len() {
                assert(first[c] == possible[c]);
            }
        }
        let t = choose|c: int|
            0 <= c < first.len() && counts.allowed(kinds, #[trigger] first[c])->0.transparent
                == before.transparent;
        assert(first[t] == possible[t]);
        let sa = choose|c: int|
            0 <= c < first.len() && counts.allowed(kinds, #[trigger] first[c])->0.sapling
                == before.sapling;
        assert(first[sa] == possible[sa]);
    } else {
        assert(counts.allowed(kinds, possible[0])->0 == least);
    }
}

/// How many inputs are reported when so many dust inputs may be spent, and how the inputs of the
/// pools divide into dust and others.
#[verifier::spinoff_prover]
#[verifier::rlimit(40)]
proof fn lemma_reported_counts<N>(
    s: Shape<N>,
    marginal_fee: nat,
    version: BundleVersion,
    ironwood: bool,
    grace_actions: usize,
    possible: Seq<OutputManifest>,
    change: OutputManifest,
)
    requires
        s.s_type is Transactional,
        s.fits(change.size()),
        s.o_in_ironwood.len() == s.o_in.len(),
        s.dust_counts(marginal_fee, version, ironwood, grace_actions).least_allowed(
            s.dust_kinds(marginal_fee),
            possible,
        ) is Some,
    ensures
        ({
            let counts = s.dust_counts(marginal_fee, version, ironwood, grace_actions);
            let least = counts.least_allowed(s.dust_kinds(marginal_fee), possible)->0;
            let has = s.with_all_inputs(change, ironwood);
            &&& s.uneconomic(marginal_fee, version, ironwood, grace_actions, possible) matches Some(
                (t, sa, o),
            ) && {
                &&& t.len() == most(0, counts.t_dust - least.transparent)
                &&& sa.len() == most(0, counts.s_dust - least.sapling)
                &&& o.len() == most(0, counts.orchard_dust - least.orchard) + most(
                    0,
                    counts.ironwood_dust - least.ironwood,
                )
            }
            &&& has.t_in == counts.t_dust + counts.t_non_dust
            &&& has.s_in == counts.s_dust + counts.s_non_dust
            &&& has.o_in == counts.orchard_dust + counts.orchard_non_dust
            &&& has.i_in == counts.ironwood_dust + counts.ironwood_non_dust
            &&& counts.t_non_dust == worth_more(s.t_in, marginal_fee) + has.t_in - s.t_in.len()
            &&& counts.s_non_dust == worth_more(s.s_in, marginal_fee)
            &&& has.t_out == counts.t_outputs + change.transparent
            &&& has.s_out == counts.s_outputs + change.sapling
        }),
{
    reveal(Shape::uneconomic);
    let counts = s.dust_counts(marginal_fee, version, ironwood, grace_actions);
    let kinds = s.dust_kinds(marginal_fee);
    let least = counts.least_allowed(kinds, possible)->0;
    lemma_counts_of(s, marginal_fee, version, ironwood, grace_actions, change);
    lemma_dust_or_worth_more(s.t_in, marginal_fee);
    lemma_dust_or_worth_more(s.s_in, marginal_fee);
    lemma_dust_or_worth_more(s.o_in, marginal_fee);
    lemma_count_set_bound(kinds);
    lemma_after_first_is_last(s.t_in, marginal_fee, least.transparent as nat);
    lemma_after_first_is_last(s.s_in, marginal_fee, least.sapling as nat);
    lemma_beyond_allowed_len(
        dust(s.o_in, marginal_fee),
        kinds,
        least.orchard as nat,
        least.ironwood as nat,
    );
}

/// Of the transparent inputs and of the Sapling notes no more are kept than there are outputs, or
/// inputs that are worth more than the marginal fee, but for one, whichever of the possible changes
/// it comes to; and where one of them is reported, at least as many are kept as there are outputs
/// with one of the possible changes.
#[verifier::spinoff_prover]
#[verifier::rlimit(40)]
pub proof fn lemma_kept_inputs<N>(
    s: Shape<N>,
    marginal_fee: nat,
    version: BundleVersion,
    ironwood: bool,
    grace_actions: usize,
    possible: Seq<OutputManifest>,
)
    requires
        s.s_type is Transactional,
        possible.len() > 0,
        forall|c: int| 0 <= c < possible.len() ==> s.fits((#[trigger] possible[c]).size()),
        s.o_in_ironwood.len() == s.o_in.len(),
    ensures
        s.uneconomic(marginal_fee, version, ironwood, grace_actions, possible) matches Some(
            (t, sa, o),
        ) && {
            &&& forall|c: int|
                0 <= c < possible.len() ==> {
                    let has = s.with_all_inputs(#[trigger] possible[c], ironwood);
                    &&& excess(
                        has.t_in - t.len(),
                        has.t_out,
                        worth_more(s.t_in, marginal_fee) + has.t_in - s.t_in.len(),
                    ) + excess(
                        has.s_in - sa.len(),
                        has.s_out,
                        worth_more(s.s_in, marginal_fee),
                    ) <= 1
                }
            &&& t.len() > 0 ==> exists|c: int|
                0 <= c < possible.len() && s.with_all_inputs(#[trigger] possible[c], ironwood).t_in
                    - t.len() >= s.with_all_inputs(possible[c], ironwood).t_out
            &&& sa.len() > 0 ==> exists|c: int|
                0 <= c < possible.len() && s.with_all_inputs(#[trigger] possible[c], ironwood).s_in
                    - sa.len() >= s.with_all_inputs(possible[c], ironwood).s_out
        },
{
    let counts = s.dust_counts(marginal_fee, version, ironwood, grace_actions);
    let kinds = s.dust_kinds(marginal_fee);
    lemma_answer_is_there(s, marginal_fee, version, ironwood, grace_actions, possible);
    lemma_least_allowed_bounds(counts, kinds, possible);
    let least = counts.least_allowed(kinds, possible)->0;
    let (t, sa, o) = s.uneconomic(marginal_fee, version, ironwood, grace_actions, possible)->0;
    assert forall|c: int| 0 <= c < possible.len() implies {
        let has = s.with_all_inputs(#[trigger] possible[c], ironwood);
        &&& excess(
            has.t_in - t.len(),
            has.t_out,
            worth_more(s.t_in, marginal_fee) + has.t_in - s.t_in.len(),
        ) + excess(has.s_in - sa.len(), has.s_out, worth_more(s.s_in, marginal_fee)) <= 1
    } by {
        lemma_kept_with(s, marginal_fee, version, ironwood, grace_actions, possible, c);
    }
    if t.len() > 0 {
        let c = choose|c: int|
            0 <= c < possible.len() && counts.allowed(kinds, #[trigger] possible[c])->0.transparent
                == least.transparent;
        lemma_kept_with(s, marginal_fee, version, ironwood, grace_actions, possible, c);
        assert(s.with_all_inputs(possible[c], ironwood).t_in - t.len() >= s.with_all_inputs(
            possible[c],
            ironwood,
        ).t_out);
    }
    if sa.len() > 0 {
        let c = choose|c: int|
            0 <= c < possible.len() && counts.allowed(kinds, #[trigger] possible[c])->0.sapling
                == least.sapling;
        lemma_kept_with(s, marginal_fee, version, ironwood, grace_actions, possible, c);
        assert(s.with_all_inputs(possible[c], ironwood).s_in - sa.len() >= s.with_all_inputs(
            possible[c],
            ironwood,
        ).s_out);
    }
}

/// What is kept with one of the possible changes.
#[verifier::spinoff_prover]
#[verifier::rlimit(40)]
proof fn lemma_kept_with<N>(
    s: Shape<N>,
    marginal_fee: nat,
    version: BundleVersion,
    ironwood: bool,
    grace_actions: usize,
    possible: Seq<OutputManifest>,
    c: int,
)
    requires
        s.s_type is Transactional,
        0 <= c < possible.len(),
        s.fits(possible[c].size()),
        s.o_in_ironwood.len() == s.o_in.len(),
        s.dust_counts(marginal_fee, version, ironwood, grace_actions).least_allowed(
            s.dust_kinds(marginal_fee),
            possible,
        ) is Some,
    ensures
        s.uneconomic(marginal_fee, version, ironwood, grace_actions, possible) matches Some(
            (t, sa, o),
        ) && {
            let counts = s.dust_counts(marginal_fee, version, ironwood, grace_actions);
            let kinds = s.dust_kinds(marginal_fee);
            let least = counts.least_allowed(kinds, possible)->0;
            let allowed = counts.allowed(kinds, possible[c])->0;
            let has = s.with_all_inputs(possible[c], ironwood);
            &&& excess(
                has.t_in - t.len(),
                has.t_out,
                worth_more(s.t_in, marginal_fee) + has.t_in - s.t_in.len(),
            ) + excess(has.s_in - sa.len(), has.s_out, worth_more(s.s_in, marginal_fee)) <= 1
            &&& t.len() > 0 && least.transparent == allowed.transparent ==> has.t_in - t.len()
                >= has.t_out
            &&& sa.len() > 0 && least.sapling == allowed.sapling ==> has.s_in - sa.len()
                >= has.s_out
        },
{
    let counts = s.dust_counts(marginal_fee, version, ironwood, grace_actions);
    let kinds = s.dust_kinds(marginal_fee);
    lemma_least_allowed_bounds(counts, kinds, possible);
    lemma_counts_of(s, marginal_fee, version, ironwood, grace_actions, possible[c]);
    lemma_reported_counts(
        s,
        marginal_fee,
        version,
        ironwood,
        grace_actions,
        possible,
        possible[c],
    );
    lemma_allowed_is_bounded(counts, kinds, possible[c]);
    assert(counts.allowed(kinds, possible[c]) is Some);
}

/// The bounds on what is allowed, of each pool by itself.
proof fn lemma_allowed_is_bounded(counts: DustCounts, kinds: Seq<bool>, change: OutputManifest)
    requires
        counts.counted(kinds, change),
    ensures
        counts.allowed(kinds, change) matches Some(allowed) && {
            let t = counts.t_non_dust + allowed.transparent;
            let s = counts.s_non_dust + allowed.sapling;
            let o = counts.orchard_non_dust + allowed.orchard;
            let i = counts.ironwood_non_dust + allowed.ironwood;
            let t_out = counts.t_outputs + change.transparent;
            let s_out = counts.s_outputs + change.sapling;
            let o_out = counts.orchard_outputs + change.orchard;
            let i_out = counts.ironwood_outputs + change.ironwood;
            &&& allowed.transparent <= counts.t_dust
            &&& allowed.sapling <= counts.s_dust
            &&& allowed.orchard <= counts.orchard_dust
            &&& allowed.ironwood <= counts.ironwood_dust
            &&& excess(t, t_out, counts.t_non_dust as int) + excess(
                s,
                s_out,
                counts.s_non_dust as int,
            ) + excess(o, o_out, counts.orchard_non_dust as int) + excess(
                i,
                i_out,
                counts.ironwood_non_dust as int,
            ) <= 1
            &&& allowed.transparent < counts.t_dust ==> t >= t_out
            &&& allowed.sapling < counts.s_dust ==> s >= s_out
            &&& allowed.orchard < counts.orchard_dust ==> o >= o_out
            &&& allowed.ironwood < counts.ironwood_dust ==> i >= i_out
        },
{
    lemma_allowed_dust_is_free(counts, kinds, change);
    lemma_room_is_used(counts, kinds, change);
}

/// What is left out of a pool is what exceeds its outputs and its other inputs, but for what is
/// allowed to exceed them.
proof fn lemma_left_out(dust: int, non_dust: int, allowed: int, outputs: int)
    requires
        0 <= non_dust,
        0 <= allowed <= dust,
        allowed < dust ==> non_dust + allowed >= outputs,
    ensures
        dust - allowed == excess(dust + non_dust, outputs, non_dust) - excess(
            non_dust + allowed,
            outputs,
            non_dust,
        ),
        0 <= excess(non_dust + allowed, outputs, non_dust),
{
}

/// Where a single change is possible, one note of the Orchard bundle at most is kept beyond those
/// that outputs pay for: the notes that are reported are as many as the notes of each pool exceed the
/// greater of its outputs and its notes that are worth more than the marginal fee, or one fewer.
#[verifier::spinoff_prover]
#[verifier::rlimit(40)]
pub proof fn lemma_reported_notes<N>(
    s: Shape<N>,
    marginal_fee: nat,
    version: BundleVersion,
    ironwood: bool,
    grace_actions: usize,
    change: OutputManifest,
)
    requires
        s.s_type is Transactional,
        s.fits(change.size()),
        s.o_in_ironwood.len() == s.o_in.len(),
    ensures
        s.uneconomic(marginal_fee, version, ironwood, grace_actions, seq![change]) matches Some(
            (t, sa, o),
        ) && {
            let over = s.excess_inputs(marginal_fee, change, ironwood);
            let reported = t.len() + sa.len() + o.len();
            &&& over.t + over.s + over.o + over.i - 1 <= reported <= over.t + over.s + over.o
                + over.i
            &&& over.t - 1 <= t.len() <= over.t
            &&& over.s - 1 <= sa.len() <= over.s
            &&& over.o + over.i - 1 <= o.len() <= over.o + over.i
        },
{
    let counts = s.dust_counts(marginal_fee, version, ironwood, grace_actions);
    let kinds = s.dust_kinds(marginal_fee);
    assert(seq![change][0] == change);
    lemma_counts_of(s, marginal_fee, version, ironwood, grace_actions, change);
    lemma_allowed_is_bounded(counts, kinds, change);
    let allowed = counts.allowed(kinds, change)->0;
    assert(counts.least_allowed(kinds, seq![change]) == Some(allowed));
    lemma_reported_counts(
        s,
        marginal_fee,
        version,
        ironwood,
        grace_actions,
        seq![change],
        change,
    );
    let has = s.with_all_inputs(change, ironwood);
    lemma_left_out(
        counts.t_dust as int,
        counts.t_non_dust as int,
        allowed.transparent as int,
        has.t_out,
    );
    lemma_left_out(
        counts.s_dust as int,
        counts.s_non_dust as int,
        allowed.sapling as int,
        has.s_out,
    );
    lemma_left_out(
        counts.orchard_dust as int,
        counts.orchard_non_dust as int,
        allowed.orchard as int,
        has.o_out,
    );
    lemma_left_out(
        counts.ironwood_dust as int,
        counts.ironwood_non_dust as int,
        allowed.ironwood as int,
        has.i_out,
    );
}

/// The dust inputs that are allowed are those that outputs pay for, and one more of the first part of the
/// transaction in which there is one that costs no logical action, while grace actions are left.
#[verifier::spinoff_prover]
#[verifier::rlimit(40)]
proof fn lemma_allowed_exact(counts: DustCounts, kinds: Seq<bool>, change: OutputManifest)
    requires
        counts.counted(kinds, change),
    ensures
        counts.allowed(kinds, change) matches Some(allowed) && {
            let paid = counts.paid(change);
            let base = counts.spending(change, paid);
            let v = counts.version;
            let required = counts.sapling_required();
            let now = base.actions(v, required);
            let left = now < counts.grace_actions;
            let t_free = left && counts.t_dust > paid.transparent && (PoolCounts {
                t_in: base.t_in + 1,
                ..base
            }).actions(v, required) <= now;
            let s_free = left && !t_free && counts.s_dust > paid.sapling && (PoolCounts {
                s_in: base.s_in + 1,
                ..base
            }).actions(v, required) <= now;
            let o_free = left && !t_free && !s_free && counts.orchard_dust > paid.orchard && (
            PoolCounts { o_in: base.o_in + 1, ..base }).actions(v, required) <= now;
            let i_free = left && !t_free && !s_free && counts.ironwood_dust > paid.ironwood && (
            PoolCounts { i_in: base.i_in + 1, ..base }).actions(v, required) <= now;
            &&& allowed.transparent == paid.transparent + if t_free {
                1int
            } else {
                0
            }
            &&& allowed.sapling == paid.sapling + if s_free {
                1int
            } else {
                0
            }
            &&& paid.orchard <= allowed.orchard
            &&& paid.ironwood <= allowed.ironwood
            &&& allowed.orchard + allowed.ironwood <= paid.orchard + paid.ironwood + 1
            &&& allowed.orchard > paid.orchard ==> o_free
            &&& allowed.ironwood > paid.ironwood ==> i_free
            &&& o_free && counts.ironwood_dust == paid.ironwood ==> allowed.orchard
                == paid.orchard + 1
            &&& i_free && counts.orchard_dust == paid.orchard ==> allowed.ironwood
                == paid.ironwood + 1
            &&& o_free && i_free ==> allowed.orchard + allowed.ironwood == paid.orchard
                + paid.ironwood + 1
        },
{
    let paid = counts.paid(change);
    counts.lemma_paid(change);
    counts.lemma_allowed_cases(kinds, change);
    lemma_excess_kind(kinds, paid.orchard as nat, paid.ironwood as nat);
}

/// With a single possible change, exactly the inputs that exceed the outputs and the inputs worth more
/// than the marginal fee are reported, but for one that costs no logical action while grace actions are
/// left. It is looked for first in the transparent part, then in the Sapling pool, and then among the
/// notes of the Orchard and the Ironwood pool.
#[verifier::spinoff_prover]
#[verifier::rlimit(40)]
pub proof fn lemma_free_input<N>(
    s: Shape<N>,
    marginal_fee: nat,
    version: BundleVersion,
    ironwood: bool,
    grace_actions: usize,
    change: OutputManifest,
)
    requires
        s.s_type is Transactional,
        s.fits(change.size()),
        s.o_in_ironwood.len() == s.o_in.len(),
    ensures
        s.uneconomic(marginal_fee, version, ironwood, grace_actions, seq![change]) matches Some(
            (t, sa, o),
        ) && {
            let has = s.with_all_inputs(change, ironwood);
            let over = s.excess_inputs(marginal_fee, change, ironwood);
            let base = PoolCounts {
                t_in: has.t_in - over.t,
                s_in: has.s_in - over.s,
                o_in: has.o_in - over.o,
                i_in: has.i_in - over.i,
                ..has
            };
            let required = s.s_type == (BundleType::Transactional { bundle_required: true });
            let now = base.actions(version, required);
            let t_free = now < grace_actions && over.t > 0 && (PoolCounts {
                t_in: base.t_in + 1,
                ..base
            }).actions(version, required) <= now;
            let s_free = now < grace_actions && !t_free && over.s > 0 && (PoolCounts {
                s_in: base.s_in + 1,
                ..base
            }).actions(version, required) <= now;
            let o_free = now < grace_actions && !t_free && !s_free && over.o > 0 && (PoolCounts {
                o_in: base.o_in + 1,
                ..base
            }).actions(version, required) <= now;
            let i_free = now < grace_actions && !t_free && !s_free && over.i > 0 && (PoolCounts {
                i_in: base.i_in + 1,
                ..base
            }).actions(version, required) <= now;
            &&& t.len() == over.t - if t_free {
                1int
            } else {
                0
            }
            &&& sa.len() == over.s - if s_free {
                1int
            } else {
                0
            }
            &&& over.i == 0 ==> o.len() == over.o - if o_free {
                1int
            } else {
                0
            }
            &&& over.o == 0 ==> o.len() == over.i - if i_free {
                1int
            } else {
                0
            }
            &&& !o_free && !i_free ==> o.len() == over.o + over.i
            &&& o_free && i_free ==> o.len() == over.o + over.i - 1
        },
{
    let counts = s.dust_counts(marginal_fee, version, ironwood, grace_actions);
    let kinds = s.dust_kinds(marginal_fee);
    assert(seq![change][0] == change);
    lemma_counts_of(s, marginal_fee, version, ironwood, grace_actions, change);
    let paid = counts.paid(change);
    counts.lemma_paid(change);
    lemma_allowed_exact(counts, kinds, change);
    lemma_allowed_is_bounded(counts, kinds, change);
    let allowed = counts.allowed(kinds, change)->0;
    assert(counts.least_allowed(kinds, seq![change]) == Some(allowed));
    lemma_reported_counts(
        s,
        marginal_fee,
        version,
        ironwood,
        grace_actions,
        seq![change],
        change,
    );
    let has = s.with_all_inputs(change, ironwood);
    let over = s.excess_inputs(marginal_fee, change, ironwood);
    let base = PoolCounts {
        t_in: has.t_in - over.t,
        s_in: has.s_in - over.s,
        o_in: has.o_in - over.o,
        i_in: has.i_in - over.i,
        ..has
    };
    lemma_left_out(
        counts.t_dust as int,
        counts.t_non_dust as int,
        paid.transparent as int,
        has.t_out,
    );
    lemma_left_out(counts.s_dust as int, counts.s_non_dust as int, paid.sapling as int, has.s_out);
    lemma_left_out(
        counts.orchard_dust as int,
        counts.orchard_non_dust as int,
        paid.orchard as int,
        has.o_out,
    );
    lemma_left_out(
        counts.ironwood_dust as int,
        counts.ironwood_non_dust as int,
        paid.ironwood as int,
        has.i_out,
    );
    assert(base == counts.spending(change, paid));
}

/// What is seen of the parts of a transaction is what they are: each input and each output, in its order,
/// with what it is worth, and with its identifier, its size or its pool where it has one.
pub proof fn lemma_parts_are_seen<NoteRefT, O: BundleView<NoteRefT>>(
    transparent_inputs: Seq<TransparentInput>,
    transparent_outputs: Seq<TransparentOutput>,
    sapling: sapling::BundleView<NoteRefT>,
    orchard: O,
    ephemeral: Option<EphemeralBalance>,
)
    ensures
        ({
            let s = shape(transparent_inputs, transparent_outputs, sapling, orchard, ephemeral);
            &&& s.t_in.len() == transparent_inputs.len()
            &&& s.t_in_ids.len() == transparent_inputs.len()
            &&& s.t_in_sizes.len() == transparent_inputs.len()
            &&& forall|i: int|
                0 <= i < transparent_inputs.len() ==> {
                    &&& s.t_in[i] == (#[trigger] transparent_inputs[i]).value@
                    &&& s.t_in_ids[i] == transparent_inputs[i].outpoint
                    &&& s.t_in_sizes[i] == transparent_inputs[i].size
                }
            &&& s.t_out.len() == transparent_outputs.len()
            &&& s.t_out_sizes.len() == transparent_outputs.len()
            &&& forall|i: int|
                0 <= i < transparent_outputs.len() ==> {
                    &&& s.t_out[i] == (#[trigger] transparent_outputs[i]).value@
                    &&& s.t_out_sizes[i] == transparent_outputs[i].size
                }
            &&& s.s_type == sapling.bundle_type
            &&& s.s_in.len() == sapling.inputs@.len()
            &&& s.s_in_ids.len() == sapling.inputs@.len()
            &&& forall|i: int|
                0 <= i < sapling.inputs@.len() ==> {
                    &&& s.s_in[i] == (#[trigger] sapling.inputs@[i]).value@
                    &&& s.s_in_ids[i] == sapling.inputs@[i].note_id
                }
            &&& s.s_out.len() == sapling.outputs@.len()
            &&& forall|i: int|
                0 <= i < sapling.outputs@.len() ==> s.s_out[i] == (#[trigger] sapling.outputs@[i])@
            &&& s.o_in.len() == orchard.input_seq().len()
            &&& s.o_in_ids.len() == orchard.input_seq().len()
            &&& s.o_in_ironwood.len() == orchard.input_seq().len()
            &&& forall|i: int|
                0 <= i < orchard.input_seq().len() ==> {
                    &&& s.o_in[i] == (#[trigger] orchard.input_seq()[i]).worth()
                    &&& s.o_in_ids[i] == orchard.input_seq()[i].id()
                    &&& s.o_in_ironwood[i] == orchard.input_seq()[i].of_ironwood()
                }
            &&& s.o_out.len() == orchard.output_seq().len()
            &&& forall|i: int|
                0 <= i < orchard.output_seq().len() ==> s.o_out[i] == (
                #[trigger] orchard.output_seq()[i]).worth()
            &&& s.ephemeral == ephemeral
        }),
{
}

} // verus!
