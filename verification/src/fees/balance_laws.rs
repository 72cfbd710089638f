//! What the change and the fee of a transaction are, in terms of what it spends and pays.

use vstd::prelude::*;

use crate::consensus::BlockHeight;
use crate::consensus::NetworkUpgrade;
use crate::consensus::Params;
use crate::pool::BundleVersion;
use crate::pool::ShieldedProtocol;
use crate::value::total;
use crate::value::BalanceError;
use crate::value::Zatoshis;
use crate::value::MAX_MONEY;

use super::amounts;
use super::balance::lemma_change_output_present;
use super::balance::lemma_change_total;
use super::balance::lemma_outcome_conserves;
use super::balance::lemma_parts_wanted;
use super::balance::lemma_split_total;
use super::balance::parts_wanted;
use super::balance::single_pool_output_balance;
use super::balance::split_parts;
use super::balance::Outcome;
use super::balance::SinglePoolBalanceConfig;
use super::common::calculate_net_flows;
use super::common::change_pool_of;
use super::common::count_set;
use super::common::joint_actions;
use super::common::lemma_count_set_bound;
use super::common::orchard_action_count;
use super::common::shape;
use super::common::NetFlows;
use super::common::OutputManifest;
use super::common::Shape;
use super::dust::dust;
use super::dust::lemma_economic_under_every_change;
use super::dust::present;
use super::dust_laws::lemma_answer_is_there;
use super::dust_laws::lemma_economic_with_change;
use super::dust_laws::most;
use super::dust_laws::orchard_kinds;
use super::dust_laws::orchard_worths;
use super::dust_laws::padded;
use super::dust_laws::sapling_worths;
use super::dust_laws::transparent_worths;
use super::dust_laws::PoolCounts;
use super::laws::grows_with_change;
use super::laws::lemma_zip317_grows;
use super::missing_notes;
use super::orchard::BundleView;
use super::orchard::OutputView;
use super::sapling;
use super::zip317::fee_for_actions;
use super::zip317::greater;
use super::zip317::known_size;
use super::zip317::logical_actions;
use super::zip317::output_size;
use super::zip317::parts_needed;
use super::zip317::unknown_inputs;
use super::zip317::FeeError;
use super::zip317::Zip317;
use super::AccountMeta;
use super::ChangeError;
use super::ChangeValue;
use super::DustAction;
use super::EphemeralBalance;
use super::FeeRule;
use super::InputSize;
use super::MemoBytes;
use super::OutPoint;
use super::SplitPolicy;
use super::StrategyError;
use super::TransactionBalance;
use super::TransparentInput;
use super::TransparentOutput;

verus! {

/// Whether every shielded one of some change outputs has a memo, or none where there is none.
pub open spec fn memos_are(change: Seq<ChangeValue>, memo: Option<MemoBytes>) -> bool {
    forall|i: int|
        0 <= i < change.len() ==> (#[trigger] change[i] matches ChangeValue::Shielded {
            memo: m,
            ..
        } ==> m == memo)
}

/// Whether every shielded one of some change outputs goes to a pool.
pub open spec fn pools_are(change: Seq<ChangeValue>, pool: ShieldedProtocol) -> bool {
    forall|i: int|
        0 <= i < change.len() ==> (#[trigger] change[i] matches ChangeValue::Shielded {
            protocol,
            ..
        } ==> protocol == pool)
}

/// Whether two balances consist of change outputs of the same values and of the same fee.
pub open spec fn same_balance(a: TransactionBalance, b: TransactionBalance) -> bool {
    &&& amounts(a.change()) == amounts(b.change())
    &&& a.fee() == b.fee()
    &&& a.sum() == b.sum()
}

/// The memo that is given, if one is.
pub open spec fn given_memo(memo: Option<&MemoBytes>) -> Option<MemoBytes> {
    match memo {
        Some(memo) => Some(*memo),
        None => None,
    }
}

/// What the outputs of an Orchard bundle are worth.
pub open spec fn orchard_output_worths<NoteRefT, O: BundleView<NoteRefT>>(orchard: O) -> Seq<nat> {
    orchard.output_seq().map_values(|o: O::Out| o.worth())
}

/// What transparent outputs are worth.
pub open spec fn transparent_output_worths(outputs: Seq<TransparentOutput>) -> Seq<nat> {
    outputs.map_values(|o: TransparentOutput| o.value@)
}

/// Whether any of some amounts is more than nothing.
pub open spec fn any_positive(amounts: Seq<nat>) -> bool {
    exists|i: int| 0 <= i < amounts.len() && #[trigger] amounts[i] > 0
}

/// Amounts come to more than nothing just if one of them is more than nothing.
proof fn lemma_total_positive(amounts: Seq<nat>)
    ensures
        total(amounts) > 0 <==> any_positive(amounts),
    decreases amounts.len(),
{
    if amounts.len() > 0 {
        let first = amounts.drop_last();
        lemma_total_positive(first);
        if total(first) > 0 {
            let i = choose|i: int| 0 <= i < first.len() && #[trigger] first[i] > 0;
            assert(amounts[i] > 0);
        }
        if amounts.last() > 0 {
            assert(amounts[amounts.len() - 1] > 0);
        }
        if any_positive(amounts) {
            let i = choose|i: int| 0 <= i < amounts.len() && #[trigger] amounts[i] > 0;
            if i < first.len() {
                assert(first[i] > 0);
            }
        }
    }
}

/// In a transaction that spends an ephemeral output, no change output has a memo, and it makes no
/// difference which change memo is given or whether one is: two calls that differ only in the memo
/// come to the same balance, or fail alike.
pub proof fn lemma_ephemeral_input_drops_memo<
    NoteRefT: Clone,
    F: FeeRule,
    O: BundleView<NoteRefT>,
>(
    cfg: SinglePoolBalanceConfig<F>,
    meta: Option<&AccountMeta>,
    height: BlockHeight,
    transparent_inputs: &[TransparentInput],
    transparent_outputs: &[TransparentOutput],
    sapling: sapling::BundleView<NoteRefT>,
    orchard: O,
    value: Zatoshis,
    memo: Option<&MemoBytes>,
    other: Option<&MemoBytes>,
    r: Result<TransactionBalance, ChangeError<F::Error, NoteRefT>>,
    q: Result<TransactionBalance, ChangeError<F::Error, NoteRefT>>,
)
    requires
        cfg.split_policy.wf(),
        call_ensures(
            single_pool_output_balance::<NoteRefT, F, O>,
            (
                cfg,
                meta,
                height,
                transparent_inputs,
                transparent_outputs,
                &sapling,
                &orchard,
                memo,
                Some(EphemeralBalance::Input(value)),
            ),
            r,
        ),
        call_ensures(
            single_pool_output_balance::<NoteRefT, F, O>,
            (
                cfg,
                meta,
                height,
                transparent_inputs,
                transparent_outputs,
                &sapling,
                &orchard,
                other,
                Some(EphemeralBalance::Input(value)),
            ),
            q,
        ),
    ensures
        r matches Ok(balance) ==> memos_are(balance.change(), None),
        r is Ok <==> q is Ok,
        r is Ok ==> same_balance(r->Ok_0, q->Ok_0),
        r matches Err(ChangeError::InsufficientFunds { available, required }) ==> {
            &&& q matches Err(ChangeError::InsufficientFunds { available: a, required: b })
            &&& q->Err_0->available@ == available@
            &&& q->Err_0->required@ == required@
        },
        r is Err ==> (r->Err_0 is DustInputs <==> q->Err_0 is DustInputs),
        r is Err ==> (r->Err_0 is BundleError <==> q->Err_0 is BundleError),
        r is Err ==> (r->Err_0 is StrategyError <==> q->Err_0 is StrategyError),
{
    let ephemeral = Some(EphemeralBalance::Input(value));
    let s = shape(transparent_inputs@, transparent_outputs@, sapling, orchard, ephemeral);
    let m = match meta {
        Some(m) => Some(*m),
        None => None,
    };
    if let Outcome::Balanced { parts, fee } = cfg.outcome(s, m, height, None) {
        let a = r->Ok_0.change();
        let b = q->Ok_0.change();
        assert(amounts(a) =~= parts);
        assert(amounts(b) =~= parts);
    }
}

/// Where a transaction is balanced, its shielded change goes to the Orchard receiver if anything
/// flows into or out of an Orchard bundle, else to the Sapling receiver if anything flows into or out
/// of the Sapling pool, and else to the fallback; it has the memo that was given, unless the
/// transaction spends an ephemeral output, and there is a shielded change output to carry it. The
/// ephemeral output that a transaction creates comes last, and there is no other transparent change.
pub proof fn lemma_change_outputs<NoteRefT: Clone, F: FeeRule, O: BundleView<NoteRefT>>(
    cfg: SinglePoolBalanceConfig<F>,
    meta: Option<&AccountMeta>,
    height: BlockHeight,
    transparent_inputs: &[TransparentInput],
    transparent_outputs: &[TransparentOutput],
    sapling: sapling::BundleView<NoteRefT>,
    orchard: O,
    memo: Option<&MemoBytes>,
    ephemeral: Option<EphemeralBalance>,
    r: Result<TransactionBalance, ChangeError<F::Error, NoteRefT>>,
)
    requires
        cfg.split_policy.wf(),
        call_ensures(
            single_pool_output_balance::<NoteRefT, F, O>,
            (
                cfg,
                meta,
                height,
                transparent_inputs,
                transparent_outputs,
                &sapling,
                &orchard,
                memo,
                ephemeral,
            ),
            r,
        ),
        r is Ok,
    ensures
        ({
            let change = r->Ok_0.change();
            let spends_ephemeral = ephemeral is Some && ephemeral->0 is Input;
            let creates_ephemeral = ephemeral is Some && ephemeral->0 is Output;
            let uses_orchard = any_positive(orchard_worths(orchard)) || any_positive(
                orchard_output_worths(orchard),
            );
            let uses_sapling = any_positive(sapling_worths(sapling.inputs@)) || any_positive(
                sapling.outputs@.map_values(|o: Zatoshis| o@),
            );
            &&& pools_are(
                change,
                if uses_orchard {
                    ShieldedProtocol::Orchard
                } else if uses_sapling {
                    ShieldedProtocol::Sapling
                } else {
                    cfg.fallback_change_pool
                },
            )
            &&& memos_are(
                change,
                if spends_ephemeral {
                    None
                } else {
                    given_memo(memo)
                },
            )
            &&& memo is Some && !spends_ephemeral ==> change.len() > 0 && change[0] is Shielded
            &&& uses_orchard || uses_sapling ==> (cfg.dust_output_policy.action
                != DustAction::AddDustToFee ==> change.len() > 0 && change[0] is Shielded)
            &&& forall|i: int|
                0 <= i < change.len() ==> (#[trigger] change[i] is EphemeralTransparent
                    <==> creates_ephemeral && i == change.len() - 1)
            &&& creates_ephemeral ==> change.len() > 0 && change.last().amount()
                == EphemeralBalance::output(ephemeral)->0
        }),
{
    let s = shape(transparent_inputs@, transparent_outputs@, sapling, orchard, ephemeral);
    let m = match meta {
        Some(m) => Some(*m),
        None => None,
    };
    let kept = if ephemeral is Some && ephemeral->0 is Input {
        None
    } else {
        given_memo(memo)
    };
    lemma_total_positive(s.o_in);
    lemma_total_positive(s.o_out);
    lemma_total_positive(s.s_in);
    lemma_total_positive(s.s_out);
    assert(s.s_out =~= sapling.outputs@.map_values(|o: Zatoshis| o@));
    if kept is Some || (!s.is_transparent() && cfg.dust_output_policy.action
        != DustAction::AddDustToFee) {
        lemma_change_output_present(cfg, s, m, height, kept);
    }
    if let Outcome::Balanced { parts, fee } = cfg.outcome(s, m, height, kept) {
        let change = r->Ok_0.change();
        assert forall|i: int| 0 <= i < change.len() implies (#[trigger] change[i]
            is EphemeralTransparent <==> ephemeral is Some && ephemeral->0 is Output && i
            == change.len() - 1) by {
            if i < parts.len() {
                assert(change[i] is Shielded);
            }
        }
        if parts.len() > 0 {
            assert(change[0] is Shielded);
        }
    }
}

/// Nothing is lost and nothing is created: the inputs, with the ephemeral one, are worth what the
/// outputs, the change outputs and the fee are worth together. Where the inputs are said not to
/// suffice, they are worth what is said to be available, and more is required.
pub proof fn lemma_value_is_conserved<NoteRefT: Clone, F: FeeRule, O: BundleView<NoteRefT>>(
    cfg: SinglePoolBalanceConfig<F>,
    meta: Option<&AccountMeta>,
    height: BlockHeight,
    transparent_inputs: &[TransparentInput],
    transparent_outputs: &[TransparentOutput],
    sapling: sapling::BundleView<NoteRefT>,
    orchard: O,
    memo: Option<&MemoBytes>,
    ephemeral: Option<EphemeralBalance>,
    r: Result<TransactionBalance, ChangeError<F::Error, NoteRefT>>,
)
    requires
        cfg.split_policy.wf(),
        call_ensures(
            single_pool_output_balance::<NoteRefT, F, O>,
            (
                cfg,
                meta,
                height,
                transparent_inputs,
                transparent_outputs,
                &sapling,
                &orchard,
                memo,
                ephemeral,
            ),
            r,
        ),
    ensures
        ({
            let spent = total(transparent_worths(transparent_inputs@)) + total(
                sapling_worths(sapling.inputs@),
            ) + total(orchard_worths(orchard)) + if let Some(EphemeralBalance::Input(v)) = ephemeral {
                v@
            } else {
                0
            };
            let paid = total(transparent_output_worths(transparent_outputs@)) + total(
                sapling.outputs@.map_values(|o: Zatoshis| o@),
            ) + total(orchard_output_worths(orchard));
            &&& r matches Ok(balance) ==> {
                &&& spent == paid + total(amounts(balance.change())) + balance.fee()
                &&& balance.sum() == total(amounts(balance.change())) + balance.fee()
            }
            &&& r matches Err(ChangeError::InsufficientFunds { available, required }) ==> {
                &&& available@ == spent
                &&& required@ > spent
                &&& required@ >= paid
            }
        }),
{
    let s = shape(transparent_inputs@, transparent_outputs@, sapling, orchard, ephemeral);
    let m = match meta {
        Some(m) => Some(*m),
        None => None,
    };
    let kept = if ephemeral is Some && ephemeral->0 is Input {
        None
    } else {
        given_memo(memo)
    };
    assert(s.s_out =~= sapling.outputs@.map_values(|o: Zatoshis| o@));
    lemma_outcome_conserves(cfg, s, m, height, kept);
    if let Outcome::Balanced { parts, fee } = cfg.outcome(s, m, height, kept) {
        lemma_change_total(
            r->Ok_0.change(),
            change_pool_of(s, cfg.fallback_change_pool),
            parts,
            kept,
            EphemeralBalance::output(ephemeral),
        );
    }
    if let Outcome::Insufficient { available, required } = cfg.outcome(s, m, height, kept) {
        lemma_insufficient(cfg, s, m, height, kept);
    }
}

/// Where the inputs do not suffice, more is required than they are worth, and at least what the
/// outputs are worth with the fee of a transaction without change.
proof fn lemma_insufficient<N, F: FeeRule>(
    cfg: SinglePoolBalanceConfig<F>,
    s: Shape<N>,
    meta: Option<AccountMeta>,
    height: BlockHeight,
    memo: Option<MemoBytes>,
)
    ensures
        cfg.outcome(s, meta, height, memo) matches Outcome::Insufficient { available, required }
            ==> available == s.total_in() && required > available && required >= s.total_out(),
{
    reveal(SinglePoolBalanceConfig::with_change);
}

/// Whether shielded change is evenly divided: all parts are the same but for the first, which is
/// greater by less than one for each part.
pub open spec fn evenly_divided(parts: Seq<nat>) -> bool {
    forall|i: int|
        1 <= i < parts.len() ==> {
            &&& #[trigger] parts[i] == parts[1]
            &&& parts[i] <= parts[0]
            &&& parts[0] - parts[i] < parts.len()
        }
}

/// Parts of change are evenly divided.
proof fn lemma_split_is_even(change: nat, n: nat)
    requires
        n >= 1,
    ensures
        evenly_divided(split_parts(change, n)),
        forall|i: int| 0 <= i < n ==> change / n <= #[trigger] split_parts(change, n)[i],
{
    assert(0 <= change % n < n) by (nonlinear_arith)
        requires
            n >= 1,
    ;
}

/// Change is divided into no more parts than notes are missing from the wallet, and evenly. Where
/// dust is rejected, the change is nothing or no dust; where it goes to the fee, the change is
/// nothing, no dust, or more than ten times the least fee.
#[verifier::spinoff_prover]
#[verifier::rlimit(40)]
pub proof fn lemma_division<N, F: FeeRule>(
    cfg: SinglePoolBalanceConfig<F>,
    s: Shape<N>,
    meta: Option<AccountMeta>,
    height: BlockHeight,
    memo: Option<MemoBytes>,
)
    requires
        cfg.split_policy.wf(),
    ensures
        cfg.outcome(s, meta, height, memo) matches Outcome::Balanced { parts, fee } ==> {
            let threshold = match cfg.dust_output_policy.dust_threshold {
                Some(threshold) => threshold@,
                None => cfg.default_dust_threshold@,
            };
            &&& evenly_divided(parts)
            &&& parts.len() > 1 ==> (meta matches Some(m) && (m.total_note_count matches Some(held)
                && held + parts.len() <= cfg.split_policy.target_output_count))
            &&& cfg.dust_output_policy.action is Reject ==> total(parts) == 0 || total(parts)
                >= threshold
            &&& cfg.dust_output_policy.action is AddDustToFee ==> total(parts) == 0 || total(parts)
                >= threshold || total(parts) > 100_000
        },
{
    reveal(SinglePoolBalanceConfig::with_change);
    assert forall|change: nat| 1 <= #[trigger] parts_wanted(*cfg.split_policy, meta, change)
        && parts_wanted(*cfg.split_policy, meta, change) <= cfg.target_count(meta) by {
        lemma_parts_wanted(*cfg.split_policy, meta, change);
    }
    assert forall|change: nat, n: nat| n >= 1 implies total(#[trigger] split_parts(change, n))
        == change && evenly_divided(split_parts(change, n)) by {
        lemma_split_total(change, n);
        lemma_split_is_even(change, n);
    }
    assert(total(Seq::<nat>::empty()) == 0);
    assert(total(seq![0nat]) == 0) by {
        assert(seq![0nat].drop_last() =~= Seq::<nat>::empty());
    }
}

/// The number of parts of change: one unless notes are missing from the wallet, and then no more than
/// are missing. Each part is worth what a part should be, and with one part more it would not be,
/// unless no more notes are missing. A part should be worth what the policy says or else a quarter of
/// what the notes are worth on average, when the wallet holds as many as it should.
pub proof fn lemma_split_count(
    policy: SplitPolicy,
    existing_notes: Option<usize>,
    existing_total: Option<Zatoshis>,
    change: Zatoshis,
    r: usize,
)
    requires
        policy.wf(),
        policy.target_output_count <= usize::MAX / 4,
        call_ensures(
            SplitPolicy::split_count,
            (&policy, existing_notes, existing_total, change),
            r,
        ),
    ensures
        r >= 1,
        r > 1 ==> (existing_notes matches Some(held) && held + r <= policy.target_output_count),
        policy.min_split_output_value matches Some(least) ==> {
            &&& r > 1 ==> r * least@ <= change@
            &&& (existing_notes matches Some(held) && held + r < policy.target_output_count) ==> (r
                + 1) * least@ > change@
        },
        policy.min_split_output_value is None ==> {
            &&& existing_total is None ==> r == 1
            &&& existing_total matches Some(held_total) ==> {
                let least = (held_total@ + change@) / (4 * policy.target_output_count as nat);
                &&& r > 1 ==> r * least <= change@
                &&& (existing_notes matches Some(held) && held + r < policy.target_output_count
                    && held_total@ + change@ <= MAX_MONEY) ==> (r + 1) * least > change@
            }
        },
{
    if let Some(least) = policy.least_part(existing_total, change@) {
        let limit = missing_notes(policy.target_output_count as nat, existing_notes);
        assert(SplitPolicy::is_split(r as nat, limit, least, change@));
        if r > 1 {
            assert(r * least <= change@) by (nonlinear_arith)
                requires
                    r > 1,
                    change@ / (r as nat) >= least,
            ;
        }
        if existing_notes is Some && existing_notes->0 + r < policy.target_output_count {
            let more = (r + 1) as nat;
            assert(change@ / more < least);
            assert(more * least > change@) by (nonlinear_arith)
                requires
                    more >= 1,
                    change@ / more < least,
            ;
        }
    }
}

/// An ephemeral input counts like any other transparent input of a standard size that is worth more
/// than the marginal fee: a transaction that has such an input in its place comes to the same.
pub proof fn lemma_ephemeral_input_is_an_input<N, F: FeeRule>(
    cfg: SinglePoolBalanceConfig<F>,
    s: Shape<N>,
    meta: Option<AccountMeta>,
    height: BlockHeight,
    memo: Option<MemoBytes>,
    value: Zatoshis,
    outpoint: OutPoint,
)
    requires
        s.ephemeral == Some(EphemeralBalance::Input(value)),
        value@ > cfg.marginal_fee@,
        s.o_in_ironwood.len() == s.o_in.len(),
    ensures
        ({
            let other = Shape {
                t_in_ids: s.t_in_ids.push(outpoint),
                t_in: s.t_in.push(value@),
                t_in_sizes: s.t_in_sizes.push(InputSize::Known(150)),
                ephemeral: None,
                ..s
            };
            cfg.outcome(s, meta, height, memo) == cfg.outcome(other, meta, height, memo)
        }),
{
    let other = Shape {
        t_in_ids: s.t_in_ids.push(outpoint),
        t_in: s.t_in.push(value@),
        t_in_sizes: s.t_in_sizes.push(InputSize::Known(150)),
        ephemeral: None,
        ..s
    };
    assert(other.t_in.drop_last() =~= s.t_in);
    lemma_like_shapes(cfg, s, other, meta, height, memo);
}

/// An ephemeral output counts like any other transparent output of the standard size: a transaction
/// that has such an output in its place comes to the same.
pub proof fn lemma_ephemeral_output_is_an_output<N, F: FeeRule>(
    cfg: SinglePoolBalanceConfig<F>,
    s: Shape<N>,
    meta: Option<AccountMeta>,
    height: BlockHeight,
    memo: Option<MemoBytes>,
    value: Zatoshis,
)
    requires
        s.ephemeral == Some(EphemeralBalance::Output(value)),
        s.o_in_ironwood.len() == s.o_in.len(),
    ensures
        ({
            let other = Shape {
                t_out: s.t_out.push(value@),
                t_out_sizes: s.t_out_sizes.push(34),
                ephemeral: None,
                ..s
            };
            cfg.outcome(s, meta, height, memo) == cfg.outcome(other, meta, height, memo)
        }),
{
    let other = Shape {
        t_out: s.t_out.push(value@),
        t_out_sizes: s.t_out_sizes.push(34),
        ephemeral: None,
        ..s
    };
    assert(other.t_out.drop_last() =~= s.t_out);
    lemma_like_shapes(cfg, s, other, meta, height, memo);
}

/// Whether transactions are alike in what is counted and summed.
spec fn alike<N>(a: Shape<N>, b: Shape<N>, limit: nat) -> bool {
    &&& a.t_in_total() == b.t_in_total()
    &&& a.t_out_total() == b.t_out_total()
    &&& a.all_input_sizes() == b.all_input_sizes()
    &&& a.all_output_sizes() == b.all_output_sizes()
    &&& a.s_type == b.s_type
    &&& a.s_in == b.s_in
    &&& a.s_out == b.s_out
    &&& a.o_in == b.o_in
    &&& a.o_in_ironwood == b.o_in_ironwood
    &&& a.o_out == b.o_out
    &&& dust(a.t_in, limit) == dust(b.t_in, limit)
    &&& a.t_in.len() + present(EphemeralBalance::input(a.ephemeral) is Some) == b.t_in.len()
        + present(EphemeralBalance::input(b.ephemeral) is Some)
    &&& a.t_out.len() + present(EphemeralBalance::output(a.ephemeral) is Some) == b.t_out.len()
        + present(EphemeralBalance::output(b.ephemeral) is Some)
}

/// The fee rule asks the same of transactions that are alike.
proof fn lemma_like_fees<N, F: FeeRule>(
    cfg: SinglePoolBalanceConfig<F>,
    a: Shape<N>,
    b: Shape<N>,
    height: BlockHeight,
)
    requires
        alike(a, b, cfg.marginal_fee@),
    ensures
        forall|change: OutputManifest|
            #![trigger cfg.fee_with(a, height, change)]
            #![trigger cfg.fee_with(b, height, change)]
            cfg.fee_with(a, height, change) == cfg.fee_with(b, height, change),
{
    reveal(SinglePoolBalanceConfig::fee_with);
}

/// The same inputs of transactions that are alike are uneconomic.
#[verifier::spinoff_prover]
#[verifier::rlimit(40)]
proof fn lemma_like_uneconomic<N>(
    a: Shape<N>,
    b: Shape<N>,
    marginal_fee: nat,
    version: BundleVersion,
    ironwood: bool,
    grace_actions: usize,
    possible: Seq<OutputManifest>,
)
    requires
        alike(a, b, marginal_fee),
    ensures
        a.uneconomic(marginal_fee, version, ironwood, grace_actions, possible) == b.uneconomic(
            marginal_fee,
            version,
            ironwood,
            grace_actions,
            possible,
        ),
{
    reveal(Shape::uneconomic);
    assert(a.dust_counts(marginal_fee, version, ironwood, grace_actions) == b.dust_counts(
        marginal_fee,
        version,
        ironwood,
        grace_actions,
    ));
}

/// Transactions that are alike in what is counted and summed come to the same.
#[verifier::spinoff_prover]
#[verifier::rlimit(40)]
proof fn lemma_like_shapes<N, F: FeeRule>(
    cfg: SinglePoolBalanceConfig<F>,
    a: Shape<N>,
    b: Shape<N>,
    meta: Option<AccountMeta>,
    height: BlockHeight,
    memo: Option<MemoBytes>,
)
    requires
        alike(a, b, cfg.marginal_fee@),
    ensures
        cfg.outcome(a, meta, height, memo) == cfg.outcome(b, meta, height, memo),
{
    lemma_like_fees(cfg, a, b, height);
    assert forall|n: nat| #[trigger] cfg.change_of(a, height, n) == cfg.change_of(
        b,
        height,
        n,
    ) by {}
    lemma_like_uneconomic(
        a,
        b,
        cfg.marginal_fee@,
        BundleVersion::orchard_at(*cfg.params, height),
        cfg.ironwood_outputs(height),
        cfg.grace_actions,
        cfg.possible_change(a, meta, height, memo),
    );
    assert(cfg.uneconomic_inputs(a, meta, height, memo) == cfg.uneconomic_inputs(
        b,
        meta,
        height,
        memo,
    ));
    if let Some(min_fee) = cfg.fee_with(a, height, OutputManifest::none()) {
        assert(cfg.with_change(a, meta, height, memo, min_fee) == cfg.with_change(
            b,
            meta,
            height,
            memo,
            min_fee,
        )) by {
            reveal(SinglePoolBalanceConfig::with_change);
            let target = cfg.target_count(meta);
            assert(cfg.change_of(a, height, target) == cfg.change_of(b, height, target));
            assert(a.total_in() == b.total_in());
            assert(a.total_out() == b.total_out());
        }
    }
}

/// Where a transaction is balanced, its inputs are worth spending with as many change outputs as may
/// be made; and where it comes to have no shielded change output, they are without change too.
#[verifier::spinoff_prover]
#[verifier::rlimit(40)]
pub proof fn lemma_balanced_is_economic<N, F: FeeRule>(
    cfg: SinglePoolBalanceConfig<F>,
    s: Shape<N>,
    meta: Option<AccountMeta>,
    height: BlockHeight,
    memo: Option<MemoBytes>,
)
    requires
        cfg.split_policy.wf(),
        cfg.marginal_fee@ > 0,
    ensures
        cfg.outcome(s, meta, height, memo) matches Outcome::Balanced { parts, fee } ==> {
            let version = BundleVersion::orchard_at(*cfg.params, height);
            let ironwood = !cfg.force_legacy_orchard_change && cfg.params.active(
                NetworkUpgrade::Nu6_3,
                height,
            );
            let most_parts = match meta {
                Some(m) => match m.total_note_count {
                    Some(held) => if cfg.split_policy.target_output_count > held {
                        (cfg.split_policy.target_output_count - held) as usize
                    } else {
                        1
                    },
                    None => 1,
                },
                None => 1,
            };
            &&& s.economic(
                cfg.marginal_fee@,
                version,
                ironwood,
                cfg.grace_actions,
                seq![
                    OutputManifest::single_pool(
                        change_pool_of(s, cfg.fallback_change_pool),
                        most_parts,
                        ironwood,
                    ),
                ],
            )
            &&& parts.len() == 0 ==> s.economic(
                cfg.marginal_fee@,
                version,
                ironwood,
                cfg.grace_actions,
                seq![OutputManifest { transparent: 0, sapling: 0, orchard: 0, ironwood: 0 }],
            )
        },
{
    reveal(SinglePoolBalanceConfig::with_change);
    assert forall|change: nat| 1 <= #[trigger] parts_wanted(*cfg.split_policy, meta, change) by {
        lemma_parts_wanted(*cfg.split_policy, meta, change);
    }
    let none = OutputManifest { transparent: 0, sapling: 0, orchard: 0, ironwood: 0 };
    let target = cfg.change_of(s, height, cfg.target_count(meta));
    let version = BundleVersion::orchard_at(*cfg.params, height);
    lemma_economic_under_every_change(
        s,
        cfg.marginal_fee@,
        version,
        cfg.ironwood_outputs(height),
        cfg.grace_actions,
        seq![none],
        seq![target],
    );
    assert(seq![none] + seq![target] =~= seq![none, target]);
}

impl<N> Shape<N> {
    /// What the transaction has in each pool with `n` change outputs to a shielded pool, where the
    /// transparent part counts by its size: an input by the 150 bytes of a standard one, an output by
    /// 34 bytes.
    pub open spec fn sized_with(self, pool: ShieldedProtocol, n: int, ironwood: bool) -> PoolCounts {
        let in_bytes = known_size(self.t_in_sizes) + if self.ephemeral is Some
            && self.ephemeral->0 is Input {
            150int
        } else {
            0
        };
        let out_bytes = output_size(self.t_out_sizes) + if self.ephemeral is Some
            && self.ephemeral->0 is Output {
            34int
        } else {
            0
        };
        let sapling = if pool is Sapling {
            n
        } else {
            0
        };
        let orchard = if pool is Orchard {
            n
        } else {
            0
        };
        PoolCounts {
            t_in: (in_bytes + 149) / 150,
            t_out: (out_bytes + 33) / 34,
            s_in: self.s_in.len() as int,
            s_out: self.s_out.len() + sapling,
            o_in: self.o_in.len() - count_set(self.o_in_ironwood),
            o_out: if ironwood {
                0
            } else {
                self.o_out.len() + orchard
            },
            i_in: count_set(self.o_in_ironwood) as int,
            i_out: if ironwood {
                self.o_out.len() + orchard
            } else {
                0
            },
        }
    }

    /// The fee that ZIP 317 asks of the transaction with `n` change outputs to a shielded pool: 5000
    /// zatoshis for each logical action, but for two at least. From NU6.3 on, no action of the
    /// Orchard pool has both a spend and an output.
    #[verifier::opaque]
    pub open spec fn zip317_fee(
        self,
        pool: ShieldedProtocol,
        n: int,
        restricted: bool,
        ironwood: bool,
    ) -> int {
        5000 * most(
            2,
            self.sized_with(pool, n, ironwood).actions(
                if restricted {
                    BundleVersion::OrchardV3
                } else {
                    BundleVersion::OrchardV2
                },
                self.s_type == (sapling::BundleType::Transactional { bundle_required: true }),
            ),
        )
    }
}

/// The fee rule of ZIP 317 asks 5000 zatoshis for each logical action.
#[verifier::spinoff_prover]
#[verifier::rlimit(40)]
proof fn lemma_zip317_asks<N>(
    cfg: SinglePoolBalanceConfig<Zip317>,
    s: Shape<N>,
    height: BlockHeight,
    n: nat,
)
    requires
        s.s_type is Transactional,
        n <= usize::MAX,
        s.o_in_ironwood.len() == s.o_in.len(),
    ensures
        ({
            let restricted = cfg.params.active(NetworkUpgrade::Nu6_3, height) || cfg.params.active(
                NetworkUpgrade::Nu7,
                height,
            );
            let ironwood = !cfg.force_legacy_orchard_change && cfg.params.active(
                NetworkUpgrade::Nu6_3,
                height,
            );
            let pool = change_pool_of(s, cfg.fallback_change_pool);
            let fee = s.zip317_fee(pool, n as int, restricted, ironwood);
            &&& fee >= 10_000
            &&& cfg.fee_with(s, height, cfg.change_of(s, height, n)) == (if sizes_known(
                s.t_in_sizes,
            ) && fee <= MAX_MONEY {
                Some(fee as nat)
            } else {
                None
            })
        }),
{
    let restricted = cfg.params.active(NetworkUpgrade::Nu6_3, height) || cfg.params.active(
        NetworkUpgrade::Nu7,
        height,
    );
    let ironwood = cfg.ironwood_outputs(height);
    let pool = change_pool_of(s, cfg.fallback_change_pool);
    let change = cfg.change_of(s, height, n);
    reveal(Shape::zip317_fee);
    let has = s.sized_with(pool, n as int, ironwood);
    let required = s.s_type == (sapling::BundleType::Transactional { bundle_required: true });
    lemma_count_set_bound(s.o_in_ironwood);
    if EphemeralBalance::input(s.ephemeral) is Some {
        assert(s.all_input_sizes().drop_last() =~= s.t_in_sizes);
    }
    if EphemeralBalance::output(s.ephemeral) is Some {
        assert(s.all_output_sizes().drop_last() =~= s.t_out_sizes);
    }
    let spends = s.s_type.spends_needed(s.s_in.len())->0;
    let outputs = s.s_type.outputs_needed(s.s_in.len(), s.s_out.len() + change.sapling as nat)->0;
    let version = BundleVersion::orchard_at(*cfg.params, height);
    let actions = s.actions_with(version, ironwood, change);
    assert(has.s_out == s.s_out.len() + change.sapling);
    lemma_sapling_actions(s.s_type, s.s_in.len(), s.s_out.len() + change.sapling as nat);
    assert(parts_needed(known_size(s.all_input_sizes()), 150) == has.t_in);
    assert(parts_needed(output_size(s.all_output_sizes()), 34) == has.t_out);
    lemma_joint_actions(version, has.o_in, has.i_in, has.o_out, has.i_out);
    let logical = logical_actions(
        known_size(s.all_input_sizes()),
        output_size(s.all_output_sizes()),
        spends,
        outputs,
        actions,
    );
    assert(has.actions(
        if restricted {
            BundleVersion::OrchardV3
        } else {
            BundleVersion::OrchardV2
        },
        required,
    ) == logical) by {
        reveal(PoolCounts::actions);
    }
    lemma_sizes_known(s.all_input_sizes());
    lemma_sizes_known(s.t_in_sizes);
    assert(unknown_inputs(s.all_input_sizes()) == unknown_inputs(s.t_in_sizes));
    assert(cfg.fee_with(s, height, change) == (if sizes_known(s.t_in_sizes) && fee_for_actions(
        logical,
    ) <= MAX_MONEY {
        Some(fee_for_actions(logical))
    } else {
        None
    })) by {
        reveal(SinglePoolBalanceConfig::fee_with);
    }
}

/// Whether the sizes of all inputs are known.
pub open spec fn sizes_known(sizes: Seq<InputSize>) -> bool {
    forall|i: int| 0 <= i < sizes.len() ==> #[trigger] sizes[i] is Known
}

/// There are no inputs of unknown sizes just if the sizes of all are known; and the outpoints of
/// those inputs are the ones whose sizes are not known.
proof fn lemma_sizes_known(sizes: Seq<InputSize>)
    ensures
        unknown_inputs(sizes).len() == 0 <==> sizes_known(sizes),
        forall|i: int|
            0 <= i < sizes.len() ==> (#[trigger] sizes[i] matches InputSize::Unknown(outpoint)
                ==> unknown_inputs(sizes).contains(outpoint)),
        forall|k: int|
            0 <= k < unknown_inputs(sizes).len() ==> sizes.contains(
                InputSize::Unknown(#[trigger] unknown_inputs(sizes)[k]),
            ),
    decreases sizes.len(),
{
    if sizes.len() > 0 {
        let first = sizes.drop_last();
        let before = unknown_inputs(first);
        let all = unknown_inputs(sizes);
        lemma_sizes_known(first);
        assert(sizes[sizes.len() - 1] == sizes.last());
        if sizes_known(first) && sizes.last() is Known {
            assert forall|i: int| 0 <= i < sizes.len() implies #[trigger] sizes[i] is Known by {
                if i < first.len() {
                    assert(first[i] == sizes[i]);
                }
            }
        }
        if sizes_known(sizes) {
            assert forall|i: int| 0 <= i < first.len() implies #[trigger] first[i] is Known by {
                assert(first[i] == sizes[i]);
            }
        }
        assert forall|i: int| 0 <= i < sizes.len() implies (
        #[trigger] sizes[i] matches InputSize::Unknown(outpoint) ==> all.contains(outpoint)) by {
            if let InputSize::Unknown(outpoint) = sizes[i] {
                if i < first.len() {
                    assert(first[i] == sizes[i]);
                    assert(before.contains(outpoint));
                    let j = choose|j: int| 0 <= j < before.len() && before[j] == outpoint;
                    assert(all[j] == outpoint);
                } else {
                    assert(all[all.len() - 1] == outpoint);
                }
            }
        }
        assert forall|k: int| 0 <= k < all.len() implies sizes.contains(
            InputSize::Unknown(#[trigger] all[k]),
        ) by {
            if k < before.len() {
                assert(all[k] == before[k]);
                let j = choose|j: int|
                    0 <= j < first.len() && first[j] == InputSize::Unknown(before[k]);
                assert(sizes[j] == InputSize::Unknown(all[k]));
            } else {
                assert(sizes[sizes.len() - 1] == InputSize::Unknown(all[k]));
            }
        }
    }
}

/// The fee rule of ZIP 317 has a fee for a transaction just if the sizes of all its inputs are known
/// and the fee can exist; where sizes are not known, it reports the outpoints of exactly the inputs
/// that have such.
pub proof fn lemma_zip317_rule(
    params: Params,
    height: BlockHeight,
    input_sizes: &[InputSize],
    output_sizes: &[usize],
    sapling_inputs: usize,
    sapling_outputs: usize,
    actions: usize,
    r: Result<Zatoshis, FeeError>,
)
    requires
        call_ensures(
            Zip317::fee_required,
            (
                &Zip317,
                &params,
                height,
                input_sizes,
                output_sizes,
                sapling_inputs,
                sapling_outputs,
                actions,
            ),
            r,
        ),
    ensures
        ({
            let transparent = most(
                (known_size(input_sizes@) + 149) as int / 150,
                (output_size(output_sizes@) + 33) as int / 34,
            );
            let logical = transparent + most(sapling_inputs as int, sapling_outputs as int)
                + actions;
            let fee = 5000 * most(2, logical);
            match r {
                Ok(asked) => sizes_known(input_sizes@) && asked@ == fee && fee <= MAX_MONEY,
                Err(FeeError::UnknownP2shInputs(outpoints)) => {
                    &&& !sizes_known(input_sizes@)
                    &&& forall|i: int|
                        0 <= i < input_sizes@.len() ==> (
                        #[trigger] input_sizes@[i] matches InputSize::Unknown(outpoint)
                            ==> outpoints@.contains(outpoint))
                    &&& forall|k: int|
                        0 <= k < outpoints@.len() ==> input_sizes@.contains(
                            InputSize::Unknown(#[trigger] outpoints@[k]),
                        )
                },
                Err(FeeError::Balance(_)) => sizes_known(input_sizes@) && fee > MAX_MONEY,
            }
        }),
{
    lemma_sizes_known(input_sizes@);
}

/// Where the inputs are worth spending and can pay for the outputs, for the fee with as many change
/// outputs as may be made and for change that is no dust, and no amount is more than can exist, the
/// transaction is balanced.
#[verifier::spinoff_prover]
#[verifier::rlimit(40)]
pub proof fn lemma_funds_suffice<N>(
    cfg: SinglePoolBalanceConfig<Zip317>,
    s: Shape<N>,
    meta: Option<AccountMeta>,
    height: BlockHeight,
    memo: Option<MemoBytes>,
)
    requires
        cfg.split_policy.wf(),
        s.s_type is Transactional,
        s.o_in_ironwood.len() == s.o_in.len(),
        sizes_known(s.t_in_sizes),
        s.total_in() <= MAX_MONEY,
        cfg.marginal_fee@ == 0 || s.economic(
            cfg.marginal_fee@,
            BundleVersion::orchard_at(*cfg.params, height),
            cfg.ironwood_outputs(height),
            cfg.grace_actions,
            cfg.possible_change(s, meta, height, memo),
        ),
        ({
            let restricted = cfg.params.active(NetworkUpgrade::Nu6_3, height) || cfg.params.active(
                NetworkUpgrade::Nu7,
                height,
            );
            let ironwood = !cfg.force_legacy_orchard_change && cfg.params.active(
                NetworkUpgrade::Nu6_3,
                height,
            );
            let pool = change_pool_of(s, cfg.fallback_change_pool);
            let threshold = match cfg.dust_output_policy.dust_threshold {
                Some(threshold) => threshold@,
                None => cfg.default_dust_threshold@,
            };
            s.total_in() >= s.total_out() + s.zip317_fee(
                pool,
                cfg.target_count(meta) as int,
                restricted,
                ironwood,
            ) + threshold
        }),
    ensures
        cfg.outcome(s, meta, height, memo) is Balanced,
{
    let restricted = cfg.params.active(NetworkUpgrade::Nu6_3, height) || cfg.params.active(
        NetworkUpgrade::Nu7,
        height,
    );
    let ironwood = cfg.ironwood_outputs(height);
    let pool = change_pool_of(s, cfg.fallback_change_pool);
    let target = cfg.target_count(meta);
    assert(target <= usize::MAX);
    assert(cfg.change_of(s, height, 0) == OutputManifest::none());
    lemma_zip317_asks(cfg, s, height, 0);
    lemma_zip317_asks(cfg, s, height, target);
    lemma_zip317_fee_grows(s, pool, 0, target as int, restricted, ironwood);
    let most_fee = s.zip317_fee(pool, target as int, restricted, ironwood);
    let left = (s.total_in() - s.total_out() - most_fee) as nat;
    let n = parts_wanted(*cfg.split_policy, meta, left);
    lemma_parts_wanted(*cfg.split_policy, meta, left);
    lemma_parts_wanted(*cfg.split_policy, meta, 0);
    lemma_zip317_asks(cfg, s, height, n);
    lemma_zip317_fee_grows(s, pool, n as int, target as int, restricted, ironwood);
    if let Some(min_fee) = cfg.fee_with(s, height, OutputManifest::none()) {
        assert(cfg.with_change(s, meta, height, memo, min_fee) is Balanced) by {
            reveal(SinglePoolBalanceConfig::with_change);
        }
    }
}

/// The logical actions of the Sapling pool.
proof fn lemma_sapling_actions(kind: sapling::BundleType, spends: nat, outputs: nat)
    requires
        kind is Transactional,
    ensures
        greater(kind.spends_needed(spends)->0, kind.outputs_needed(spends, outputs)->0) == (if spends
            == 0 && outputs == 0 && kind == (sapling::BundleType::Transactional {
            bundle_required: false,
        }) {
            0
        } else {
            most(spends as int, most(outputs as int, 2))
        }),
        kind != (sapling::BundleType::Transactional { bundle_required: false }) ==> kind == (
        sapling::BundleType::Transactional { bundle_required: true }),
{
}

/// The actions of the Orchard and of the Ironwood pool.
proof fn lemma_joint_actions(version: BundleVersion, oi: int, ii: int, oo: int, io: int)
    requires
        0 <= oi,
        0 <= ii,
        0 <= oo,
        0 <= io,
    ensures
        joint_actions(version, oi as nat, ii as nat, oo as nat, io as nat) == (if version
            is OrchardV3 {
            padded(oi + oo)
        } else {
            padded(most(oi, oo))
        }) + padded(most(ii, io)),
{
}

/// More change outputs never cost less.
proof fn lemma_zip317_fee_grows<N>(
    s: Shape<N>,
    pool: ShieldedProtocol,
    n: int,
    m: int,
    restricted: bool,
    ironwood: bool,
)
    requires
        0 <= n <= m,
    ensures
        s.zip317_fee(pool, n, restricted, ironwood) <= s.zip317_fee(
            pool,
            m,
            restricted,
            ironwood,
        ),
{
    reveal(PoolCounts::actions);
    reveal(Shape::zip317_fee);
}

/// A balanced transaction pays exactly the fee that ZIP 317 asks of it with the change outputs that it
/// has, unless dust goes to the fee: then it pays no less, and more only where no change is left, by no
/// more than ten times the least fee beyond what as many change outputs as may be made would cost.
#[verifier::spinoff_prover]
#[verifier::rlimit(40)]
pub proof fn lemma_zip317_fee_paid<N>(
    cfg: SinglePoolBalanceConfig<Zip317>,
    s: Shape<N>,
    meta: Option<AccountMeta>,
    height: BlockHeight,
    memo: Option<MemoBytes>,
)
    requires
        cfg.split_policy.wf(),
        s.s_type is Transactional,
        s.o_in_ironwood.len() == s.o_in.len(),
    ensures
        cfg.outcome(s, meta, height, memo) matches Outcome::Balanced { parts, fee } ==> {
            let restricted = cfg.params.active(NetworkUpgrade::Nu6_3, height) || cfg.params.active(
                NetworkUpgrade::Nu7,
                height,
            );
            let ironwood = !cfg.force_legacy_orchard_change && cfg.params.active(
                NetworkUpgrade::Nu6_3,
                height,
            );
            let pool = change_pool_of(s, cfg.fallback_change_pool);
            let asked = s.zip317_fee(pool, parts.len() as int, restricted, ironwood);
            let asked_most = s.zip317_fee(
                pool,
                cfg.target_count(meta) as int,
                restricted,
                ironwood,
            );
            &&& asked <= fee <= asked_most + 100_000
            &&& !(cfg.dust_output_policy.action is AddDustToFee) || total(parts) > 0 ==> fee
                == asked
        },
{
    let target = cfg.target_count(meta);
    if let Outcome::Balanced { parts, fee } = cfg.outcome(s, meta, height, memo) {
        let restricted = cfg.params.active(NetworkUpgrade::Nu6_3, height) || cfg.params.active(
            NetworkUpgrade::Nu7,
            height,
        );
        let ironwood = cfg.ironwood_outputs(height);
        let pool = change_pool_of(s, cfg.fallback_change_pool);
        assert(target <= usize::MAX);
        lemma_zip317_grows(cfg, s, height, target);
        lemma_fee_of_outcome(cfg, s, meta, height, memo);
        lemma_zip317_asks(cfg, s, height, target);
        lemma_zip317_asks(cfg, s, height, parts.len());
        lemma_zip317_fee_grows(
            s,
            pool,
            parts.len() as int,
            target as int,
            restricted,
            ironwood,
        );
    }
}

/// The fee that balances a transaction is what the rule asks with the change that it has, or, where
/// dust goes to the fee, what it asks with some change and the dust.
#[verifier::spinoff_prover]
#[verifier::rlimit(40)]
proof fn lemma_fee_of_outcome<N>(
    cfg: SinglePoolBalanceConfig<Zip317>,
    s: Shape<N>,
    meta: Option<AccountMeta>,
    height: BlockHeight,
    memo: Option<MemoBytes>,
)
    requires
        cfg.split_policy.wf(),
        grows_with_change(cfg, s, height, cfg.target_count(meta)),
    ensures
        cfg.outcome(s, meta, height, memo) matches Outcome::Balanced { parts, fee } ==> {
            let target = cfg.target_count(meta);
            let asked = cfg.fee_with(s, height, cfg.change_of(s, height, parts.len()));
            let asked_most = cfg.fee_with(s, height, cfg.change_of(s, height, target));
            &&& parts.len() <= target
            &&& asked is Some
            &&& asked->0 <= fee
            &&& !(cfg.dust_output_policy.action is AddDustToFee) || total(parts) > 0 ==> fee
                == asked->0
            &&& parts.len() == 0 && asked == Some(fee) || (asked_most is Some && fee
                <= asked_most->0 + 100_000)
        },
{
    reveal(SinglePoolBalanceConfig::with_change);
    let target = cfg.target_count(meta);
    assert forall|change: nat| 1 <= #[trigger] parts_wanted(*cfg.split_policy, meta, change)
        && parts_wanted(*cfg.split_policy, meta, change) <= target by {
        lemma_parts_wanted(*cfg.split_policy, meta, change);
    }
    let none = cfg.change_of(s, height, 0);
    let one = cfg.change_of(s, height, 1);
    assert(none == OutputManifest::none());
    assert(total(Seq::<nat>::empty()) == 0);
    assert(total(seq![0nat]) == 0) by {
        assert(seq![0nat].drop_last() =~= Seq::<nat>::empty());
    }
    if let Outcome::Balanced { parts, fee } = cfg.outcome(s, meta, height, memo) {
        let made = cfg.change_of(s, height, parts.len());
        let most_made = cfg.change_of(s, height, target);
        if let Some(min_fee) = cfg.fee_with(s, height, none) {
            if let Some(target_fee) = cfg.fee_with(s, height, most_made) {
                let max_fee = if target_fee >= min_fee {
                    target_fee
                } else {
                    min_fee
                };
                let left = s.total_in() - s.total_out() - max_fee;
                let n = parts_wanted(
                    *cfg.split_policy,
                    meta,
                    if left > 0 {
                        left as nat
                    } else {
                        0
                    },
                );
                let wanted = cfg.change_of(s, height, n);
            }
        }
    }
}

/// How many of some change outputs are shielded, when all are but for the last one if there is an
/// ephemeral output.
pub open spec fn shielded_count(change: Seq<ChangeValue>, ephemeral: Option<EphemeralBalance>) -> int {
    change.len() - if ephemeral is Some && ephemeral->0 is Output {
        1int
    } else {
        0
    }
}

/// Under the fee rule of ZIP 317, a transaction that is balanced pays the fee that is asked of it with
/// the change outputs that it has, and more only where dust goes to the fee and no change is left. The
/// shielded change is evenly divided, into no more parts than notes are missing from the wallet; where
/// dust is rejected or goes to the fee, it is nothing or no dust, or else too much for a fee.
#[verifier::spinoff_prover]
#[verifier::rlimit(40)]
pub proof fn lemma_zip317_balance<NoteRefT: Clone, O: BundleView<NoteRefT>>(
    cfg: SinglePoolBalanceConfig<Zip317>,
    meta: Option<&AccountMeta>,
    height: BlockHeight,
    transparent_inputs: &[TransparentInput],
    transparent_outputs: &[TransparentOutput],
    sapling: sapling::BundleView<NoteRefT>,
    orchard: O,
    memo: Option<&MemoBytes>,
    ephemeral: Option<EphemeralBalance>,
    r: Result<TransactionBalance, ChangeError<FeeError, NoteRefT>>,
)
    requires
        cfg.split_policy.wf(),
        sapling.bundle_type is Transactional,
        call_ensures(
            single_pool_output_balance::<NoteRefT, Zip317, O>,
            (
                cfg,
                meta,
                height,
                transparent_inputs,
                transparent_outputs,
                &sapling,
                &orchard,
                memo,
                ephemeral,
            ),
            r,
        ),
        r is Ok,
    ensures
        ({
            let s = shape(transparent_inputs@, transparent_outputs@, sapling, orchard, ephemeral);
            let change = r->Ok_0.change();
            let n = shielded_count(change, ephemeral);
            let parts = amounts(change).take(n);
            let restricted = cfg.params.active(NetworkUpgrade::Nu6_3, height) || cfg.params.active(
                NetworkUpgrade::Nu7,
                height,
            );
            let ironwood = !cfg.force_legacy_orchard_change && cfg.params.active(
                NetworkUpgrade::Nu6_3,
                height,
            );
            let pool = change_pool_of(s, cfg.fallback_change_pool);
            let asked = s.zip317_fee(pool, n, restricted, ironwood);
            let threshold = match cfg.dust_output_policy.dust_threshold {
                Some(threshold) => threshold@,
                None => cfg.default_dust_threshold@,
            };
            &&& n >= 0
            &&& r->Ok_0.fee() >= asked
            &&& !(cfg.dust_output_policy.action is AddDustToFee) || total(parts) > 0
                ==> r->Ok_0.fee() == asked
            &&& evenly_divided(parts)
            &&& n > 1 ==> (meta matches Some(m) && (m.total_note_count matches Some(held) && held + n
                <= cfg.split_policy.target_output_count))
            &&& cfg.dust_output_policy.action is Reject ==> total(parts) == 0 || total(parts)
                >= threshold
            &&& cfg.dust_output_policy.action is AddDustToFee ==> total(parts) == 0 || total(parts)
                >= threshold || total(parts) > 100_000
        }),
{
    let s = shape(transparent_inputs@, transparent_outputs@, sapling, orchard, ephemeral);
    let m = match meta {
        Some(m) => Some(*m),
        None => None,
    };
    let kept = if ephemeral is Some && ephemeral->0 is Input {
        None
    } else {
        given_memo(memo)
    };
    lemma_zip317_fee_paid(cfg, s, m, height, kept);
    lemma_division(cfg, s, m, height, kept);
    if let Outcome::Balanced { parts, fee } = cfg.outcome(s, m, height, kept) {
        let change = r->Ok_0.change();
        assert(amounts(change).take(shielded_count(change, ephemeral)) =~= parts);
    }
}

/// The flows of a transaction are the sums of its inputs and of its outputs in each part, with the
/// ephemeral one among the transparent ones; they cannot be told just if one of them is more than can
/// exist.
pub proof fn lemma_net_flows<NoteRefT, FeeError, O: BundleView<NoteRefT>>(
    transparent_inputs: &[TransparentInput],
    transparent_outputs: &[TransparentOutput],
    sapling: sapling::BundleView<NoteRefT>,
    orchard: O,
    ephemeral: Option<EphemeralBalance>,
    r: Result<NetFlows, ChangeError<FeeError, NoteRefT>>,
)
    requires
        call_ensures(
            calculate_net_flows::<NoteRefT, FeeError, O>,
            (transparent_inputs, transparent_outputs, &sapling, &orchard, ephemeral),
            r,
        ),
    ensures
        ({
            let t_in = total(transparent_worths(transparent_inputs@)) + if let Some(
                EphemeralBalance::Input(v),
            ) = ephemeral {
                v@
            } else {
                0
            };
            let t_out = total(transparent_output_worths(transparent_outputs@)) + if let Some(
                EphemeralBalance::Output(v),
            ) = ephemeral {
                v@
            } else {
                0
            };
            let s_in = total(sapling_worths(sapling.inputs@));
            let s_out = total(sapling.outputs@.map_values(|o: Zatoshis| o@));
            let o_in = total(orchard_worths(orchard));
            let o_out = total(orchard_output_worths(orchard));
            match r {
                Ok(flows) => {
                    &&& flows.t_in@ == t_in
                    &&& flows.t_out@ == t_out
                    &&& flows.sapling_in@ == s_in
                    &&& flows.sapling_out@ == s_out
                    &&& flows.orchard_in@ == o_in
                    &&& flows.orchard_out@ == o_out
                },
                Err(_) => t_in > MAX_MONEY || t_out > MAX_MONEY || s_in > MAX_MONEY || s_out
                    > MAX_MONEY || o_in > MAX_MONEY || o_out > MAX_MONEY,
            }
        }),
{
    let s = shape(transparent_inputs@, transparent_outputs@, sapling, orchard, ephemeral);
    assert(s.s_out =~= sapling.outputs@.map_values(|o: Zatoshis| o@));
}

/// The actions of the Orchard and of the Ironwood bundle are counted apart: a spend and an output share
/// an action, but not in an Orchard bundle from NU6.3 on, and a bundle that has any has two at least.
pub proof fn lemma_action_count<NoteRefT, FeeError, O: BundleView<NoteRefT>>(
    version: BundleVersion,
    orchard: O,
    orchard_outputs: usize,
    ironwood_outputs: usize,
    r: Result<usize, ChangeError<FeeError, NoteRefT>>,
)
    requires
        call_ensures(
            orchard_action_count::<NoteRefT, FeeError, O>,
            (version, &orchard, orchard_outputs, ironwood_outputs),
            r,
        ),
    ensures
        ({
            let ironwood = count_set(orchard_kinds(orchard)) as int;
            let spent = orchard.input_seq().len() - ironwood;
            let n = (if version is OrchardV3 {
                padded(spent + orchard_outputs)
            } else {
                padded(most(spent, orchard_outputs as int))
            }) + padded(most(ironwood, ironwood_outputs as int));
            match r {
                Ok(count) => count == n,
                Err(e) => e is BundleError && n > usize::MAX,
            }
        }),
{
    let ironwood = count_set(orchard_kinds(orchard));
    lemma_count_set_bound(orchard_kinds(orchard));
    lemma_joint_actions(
        version,
        orchard.input_seq().len() - ironwood,
        ironwood as int,
        orchard_outputs as int,
        ironwood_outputs as int,
    );
}

/// Change that goes to a single pool is counted there and nowhere else: change to Orchard receivers in
/// the Ironwood pool where outputs go there, and else in the Orchard pool.
pub proof fn lemma_change_is_counted_once(
    pool: ShieldedProtocol,
    count: usize,
    ironwood: bool,
    r: OutputManifest,
)
    requires
        call_ensures(OutputManifest::shielded_change, (pool, count, ironwood), r),
    ensures
        r.transparent == 0,
        r.sapling == (if pool is Sapling {
            count
        } else {
            0
        }),
        r.orchard == (if pool is Orchard && !ironwood {
            count
        } else {
            0
        }),
        r.ironwood == (if pool is Orchard && ironwood {
            count
        } else {
            0
        }),
{
}

impl<'a> SinglePoolBalanceConfig<'a, Zip317> {
    /// The fee that ZIP 317 asks of a transaction with `n` shielded change outputs.
    pub open spec fn asked_with<N>(self, s: Shape<N>, height: BlockHeight, n: int) -> int {
        s.zip317_fee(
            change_pool_of(s, self.fallback_change_pool),
            n,
            self.params.active(NetworkUpgrade::Nu6_3, height) || self.params.active(
                NetworkUpgrade::Nu7,
                height,
            ),
            !self.force_legacy_orchard_change && self.params.active(NetworkUpgrade::Nu6_3, height),
        )
    }
}

/// Where the inputs of a transaction are worth spending, no amount is more than can exist and the change
/// is not to be split, the transaction is balanced as soon as its inputs pay for its outputs and for the
/// fee with one change output, whatever becomes of dust, unless dust is rejected: then it is if nothing
/// is left as change. A transparent transaction without a memo is balanced without change if its inputs
/// pay exactly for its outputs and for the fee without change.
#[verifier::spinoff_prover]
#[verifier::rlimit(40)]
pub proof fn lemma_exact_funds_suffice<N>(
    cfg: SinglePoolBalanceConfig<Zip317>,
    s: Shape<N>,
    meta: Option<AccountMeta>,
    height: BlockHeight,
    memo: Option<MemoBytes>,
)
    requires
        cfg.split_policy.wf(),
        s.s_type is Transactional,
        s.o_in_ironwood.len() == s.o_in.len(),
        sizes_known(s.t_in_sizes),
        s.total_in() + 100_000 <= MAX_MONEY,
        cfg.marginal_fee@ == 0 || s.economic(
            cfg.marginal_fee@,
            BundleVersion::orchard_at(*cfg.params, height),
            cfg.ironwood_outputs(height),
            cfg.grace_actions,
            cfg.possible_change(s, meta, height, memo),
        ),
        meta is None || meta->0.total_note_count is None,
    ensures
        !(cfg.dust_output_policy.action is Reject) && s.total_in() >= s.total_out()
            + cfg.asked_with(s, height, 1) ==> cfg.outcome(s, meta, height, memo) is Balanced,
        s.total_in() == s.total_out() + cfg.asked_with(s, height, 1) ==> cfg.outcome(
            s,
            meta,
            height,
            memo,
        ) is Balanced,
        s.is_transparent() && memo is None && s.total_in() == s.total_out() + cfg.asked_with(
            s,
            height,
            0,
        ) ==> (cfg.outcome(s, meta, height, memo) matches Outcome::Balanced { parts, fee }
            && parts.len() == 0 && fee == cfg.asked_with(s, height, 0)),
{
    let restricted = cfg.params.active(NetworkUpgrade::Nu6_3, height) || cfg.params.active(
        NetworkUpgrade::Nu7,
        height,
    );
    let ironwood = cfg.ironwood_outputs(height);
    let pool = change_pool_of(s, cfg.fallback_change_pool);
    let target = cfg.target_count(meta);
    assert(target == 1);
    assert(cfg.change_of(s, height, 0) == OutputManifest::none());
    lemma_zip317_asks(cfg, s, height, 0);
    lemma_zip317_asks(cfg, s, height, 1);
    lemma_zip317_fee_grows(s, pool, 0, 1, restricted, ironwood);
    assert forall|change: nat| #[trigger] parts_wanted(*cfg.split_policy, meta, change) == 1 by {
        lemma_parts_wanted(*cfg.split_policy, meta, change);
    }
    if let Some(min_fee) = cfg.fee_with(s, height, OutputManifest::none()) {
        if s.total_in() >= s.total_out() + cfg.asked_with(s, height, 1) {
            assert(!(cfg.dust_output_policy.action is Reject) || s.total_in() == s.total_out()
                + cfg.asked_with(s, height, 1) ==> cfg.with_change(
                s,
                meta,
                height,
                memo,
                min_fee,
            ) is Balanced) by {
                reveal(SinglePoolBalanceConfig::with_change);
            }
        }
    }
}

/// Where the inputs do not suffice, what is required is what the outputs are worth with the fee without
/// change, if the inputs do not even pay for that; and it is never more than what the outputs are worth
/// with the fee for as many change outputs as may be made and with the least change that is no dust.
#[verifier::spinoff_prover]
#[verifier::rlimit(40)]
pub proof fn lemma_required_funds<N>(
    cfg: SinglePoolBalanceConfig<Zip317>,
    s: Shape<N>,
    meta: Option<AccountMeta>,
    height: BlockHeight,
    memo: Option<MemoBytes>,
)
    requires
        cfg.split_policy.wf(),
        s.s_type is Transactional,
        s.o_in_ironwood.len() == s.o_in.len(),
    ensures
        cfg.outcome(s, meta, height, memo) matches Outcome::Insufficient { available, required }
            ==> {
            let threshold = match cfg.dust_output_policy.dust_threshold {
                Some(threshold) => threshold@,
                None => cfg.default_dust_threshold@,
            };
            &&& available == s.total_in()
            &&& s.total_in() < s.total_out() + cfg.asked_with(s, height, 0) ==> required
                == s.total_out() + cfg.asked_with(s, height, 0)
            &&& required <= s.total_out() + cfg.asked_with(
                s,
                height,
                cfg.target_count(meta) as int,
            ) + threshold
            &&& s.total_in() < s.total_out() + cfg.asked_with(
                s,
                height,
                cfg.target_count(meta) as int,
            ) + threshold
        },
{
    let restricted = cfg.params.active(NetworkUpgrade::Nu6_3, height) || cfg.params.active(
        NetworkUpgrade::Nu7,
        height,
    );
    let ironwood = cfg.ironwood_outputs(height);
    let pool = change_pool_of(s, cfg.fallback_change_pool);
    let target = cfg.target_count(meta);
    assert(target <= usize::MAX);
    assert(cfg.change_of(s, height, 0) == OutputManifest::none());
    lemma_zip317_asks(cfg, s, height, 0);
    lemma_zip317_asks(cfg, s, height, target);
    lemma_zip317_fee_grows(s, pool, 0, target as int, restricted, ironwood);
    lemma_zip317_grows(cfg, s, height, target);
    lemma_required_with_change(cfg, s, meta, height, memo);
}

/// What is required for a transaction with change is no more than what its outputs are worth with the fee
/// for as many change outputs as may be made and with the least change that is no dust.
#[verifier::spinoff_prover]
#[verifier::rlimit(40)]
proof fn lemma_required_with_change<N, F: FeeRule>(
    cfg: SinglePoolBalanceConfig<F>,
    s: Shape<N>,
    meta: Option<AccountMeta>,
    height: BlockHeight,
    memo: Option<MemoBytes>,
)
    requires
        cfg.split_policy.wf(),
        grows_with_change(cfg, s, height, cfg.target_count(meta)),
    ensures
        cfg.fee_with(s, height, OutputManifest::none()) matches Some(min_fee) ==> (cfg.with_change(
            s,
            meta,
            height,
            memo,
            min_fee,
        ) matches Outcome::Insufficient { available, required } ==> (cfg.fee_with(
            s,
            height,
            cfg.change_of(s, height, cfg.target_count(meta)),
        ) matches Some(most_fee) && available == s.total_in() && required > available && required
            <= s.total_out() + most_fee + cfg.dust_threshold())),
{
    reveal(SinglePoolBalanceConfig::with_change);
    let target = cfg.target_count(meta);
    assert(cfg.change_of(s, height, 0) == OutputManifest::none());
    assert forall|change: nat| 1 <= #[trigger] parts_wanted(*cfg.split_policy, meta, change)
        && parts_wanted(*cfg.split_policy, meta, change) <= target by {
        lemma_parts_wanted(*cfg.split_policy, meta, change);
    }
    let most_made = cfg.change_of(s, height, target);
    if let Some(min_fee) = cfg.fee_with(s, height, OutputManifest::none()) {
        if let Some(target_fee) = cfg.fee_with(s, height, most_made) {
            let max_fee = if target_fee >= min_fee {
                target_fee
            } else {
                min_fee
            };
            let left = s.total_in() - s.total_out() - max_fee;
            let n = parts_wanted(
                *cfg.split_policy,
                meta,
                if left > 0 {
                    left as nat
                } else {
                    0
                },
            );
            let wanted = cfg.change_of(s, height, n);
        }
    }
}

/// A transaction that spends inputs that are not worth spending with as many change outputs as may be
/// made is refused for that, whatever its funds.
#[verifier::spinoff_prover]
#[verifier::rlimit(40)]
pub proof fn lemma_uneconomic_is_refused<NoteRefT: Clone, F: FeeRule, O: BundleView<NoteRefT>>(
    cfg: SinglePoolBalanceConfig<F>,
    meta: Option<&AccountMeta>,
    height: BlockHeight,
    transparent_inputs: &[TransparentInput],
    transparent_outputs: &[TransparentOutput],
    sapling: sapling::BundleView<NoteRefT>,
    orchard: O,
    memo: Option<&MemoBytes>,
    ephemeral: Option<EphemeralBalance>,
    r: Result<TransactionBalance, ChangeError<F::Error, NoteRefT>>,
)
    requires
        cfg.split_policy.wf(),
        cfg.marginal_fee@ > 0,
        sapling.bundle_type is Transactional,
        call_ensures(
            single_pool_output_balance::<NoteRefT, F, O>,
            (
                cfg,
                meta,
                height,
                transparent_inputs,
                transparent_outputs,
                &sapling,
                &orchard,
                memo,
                ephemeral,
            ),
            r,
        ),
        shape(transparent_inputs@, transparent_outputs@, sapling, orchard, ephemeral).fits(
            cfg.split_policy.target_output_count as nat,
        ),
        shape(transparent_inputs@, transparent_outputs@, sapling, orchard, ephemeral).flows_fit(),
    ensures
        ({
            let s = shape(transparent_inputs@, transparent_outputs@, sapling, orchard, ephemeral);
            let version = BundleVersion::orchard_at(*cfg.params, height);
            let ironwood = !cfg.force_legacy_orchard_change && cfg.params.active(
                NetworkUpgrade::Nu6_3,
                height,
            );
            let held = match meta {
                Some(m) => m.total_note_count,
                None => None,
            };
            let most_parts = match held {
                Some(n) => if cfg.split_policy.target_output_count > n {
                    (cfg.split_policy.target_output_count - n) as usize
                } else {
                    1
                },
                None => 1,
            };
            let change = OutputManifest::single_pool(
                change_pool_of(s, cfg.fallback_change_pool),
                most_parts,
                ironwood,
            );
            !s.worth_spending(cfg.marginal_fee@, version, ironwood, cfg.grace_actions, change) ==> (r
                matches Err(e) && e is DustInputs)
        }),
{
    let s = shape(transparent_inputs@, transparent_outputs@, sapling, orchard, ephemeral);
    let m = match meta {
        Some(m) => Some(*m),
        None => None,
    };
    let kept = if ephemeral is Some && ephemeral->0 is Input {
        None
    } else {
        given_memo(memo)
    };
    let version = BundleVersion::orchard_at(*cfg.params, height);
    let ironwood = cfg.ironwood_outputs(height);
    let none = OutputManifest::none();
    let target = cfg.change_of(s, height, cfg.target_count(m));
    assert(s.fits(none.size()));
    assert(s.fits(target.size()));
    lemma_economic_with_change(s, cfg.marginal_fee@, version, ironwood, cfg.grace_actions, target);
    lemma_economic_with_change(s, cfg.marginal_fee@, version, ironwood, cfg.grace_actions, none);
    lemma_economic_under_every_change(
        s,
        cfg.marginal_fee@,
        version,
        ironwood,
        cfg.grace_actions,
        seq![none],
        seq![target],
    );
    assert(seq![none] + seq![target] =~= seq![none, target]);
    lemma_answer_is_there(
        s,
        cfg.marginal_fee@,
        version,
        ironwood,
        cfg.grace_actions,
        seq![target],
    );
    lemma_answer_is_there(
        s,
        cfg.marginal_fee@,
        version,
        ironwood,
        cfg.grace_actions,
        seq![none, target],
    );
}

/// Where the inputs are worth spending and no amount is more than can exist, a transaction with inputs of
/// unknown sizes is refused, and the outpoints of exactly those inputs are reported. One with more in a
/// pool than can exist is refused for that.
pub proof fn lemma_unknown_sizes_reported<NoteRefT: Clone, O: BundleView<NoteRefT>>(
    cfg: SinglePoolBalanceConfig<Zip317>,
    meta: Option<&AccountMeta>,
    height: BlockHeight,
    transparent_inputs: &[TransparentInput],
    transparent_outputs: &[TransparentOutput],
    sapling: sapling::BundleView<NoteRefT>,
    orchard: O,
    memo: Option<&MemoBytes>,
    ephemeral: Option<EphemeralBalance>,
    r: Result<TransactionBalance, ChangeError<FeeError, NoteRefT>>,
)
    requires
        cfg.split_policy.wf(),
        sapling.bundle_type is Transactional,
        call_ensures(
            single_pool_output_balance::<NoteRefT, Zip317, O>,
            (
                cfg,
                meta,
                height,
                transparent_inputs,
                transparent_outputs,
                &sapling,
                &orchard,
                memo,
                ephemeral,
            ),
            r,
        ),
    ensures
        ({
            let s = shape(transparent_inputs@, transparent_outputs@, sapling, orchard, ephemeral);
            let sizes = transparent_inputs@.map_values(|i: TransparentInput| i.size);
            let overflow = Err::<TransactionBalance, ChangeError<FeeError, NoteRefT>>(
                ChangeError::StrategyError(StrategyError::Balance(BalanceError::Overflow)),
            );
            &&& cfg.marginal_fee@ == 0 && s.flows_fit() && s.total_in() <= MAX_MONEY && s.total_out()
                <= MAX_MONEY && !sizes_known(sizes) ==> (r matches Err(
                ChangeError::StrategyError(
                    StrategyError::Fee(FeeError::UnknownP2shInputs(outpoints)),
                ),
            ) && (forall|i: int|
                0 <= i < sizes.len() ==> (#[trigger] sizes[i] matches InputSize::Unknown(o)
                    ==> outpoints@.contains(o))) && (forall|k: int|
                0 <= k < outpoints@.len() ==> sizes.contains(
                    InputSize::Unknown(#[trigger] outpoints@[k]),
                )))
            &&& total(transparent_worths(transparent_inputs@)) > MAX_MONEY || total(
                sapling_worths(sapling.inputs@),
            ) > MAX_MONEY || total(orchard_worths(orchard)) > MAX_MONEY || total(
                transparent_output_worths(transparent_outputs@),
            ) > MAX_MONEY || total(orchard_output_worths(orchard)) > MAX_MONEY ==> r == overflow
        }),
{
    let s = shape(transparent_inputs@, transparent_outputs@, sapling, orchard, ephemeral);
    let sizes = transparent_inputs@.map_values(|i: TransparentInput| i.size);
    let m = match meta {
        Some(m) => Some(*m),
        None => None,
    };
    let kept = if ephemeral is Some && ephemeral->0 is Input {
        None
    } else {
        given_memo(memo)
    };
    assert(s.t_in_sizes == sizes);
    if EphemeralBalance::input(s.ephemeral) is Some {
        assert(s.all_input_sizes().drop_last() =~= s.t_in_sizes);
    }
    assert(unknown_inputs(s.all_input_sizes()) == unknown_inputs(sizes));
    lemma_sizes_known(sizes);
    if !sizes_known(sizes) {
        assert(cfg.fee_with(s, height, OutputManifest::none()) is None) by {
            reveal(SinglePoolBalanceConfig::fee_with);
        }
        if let Err(ChangeError::StrategyError(StrategyError::Fee(e))) = r {
            assert(cfg.fee_error_with(s, height, OutputManifest::none(), e) ==> (e
                matches FeeError::UnknownP2shInputs(outpoints) && outpoints@ == unknown_inputs(
                sizes,
            ))) by {
                reveal(SinglePoolBalanceConfig::fee_error_with);
            }
        }
    }
}

} // verus!
