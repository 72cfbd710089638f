//! The fee that a transaction pays covers what the fee rule asks for it.

use vstd::prelude::*;

use crate::consensus::BlockHeight;

use super::balance::lemma_parts_wanted;
use super::balance::parts_wanted;
use super::balance::Outcome;
use super::balance::SinglePoolBalanceConfig;
use super::common::OutputManifest;
use super::common::Shape;
use super::zip317::Zip317;
use super::AccountMeta;
use super::FeeRule;
use super::MemoBytes;

verus! {

/// Whether the fee rule never asks less of a transaction for having more change outputs.
pub open spec fn grows_with_change<N, F: FeeRule>(
    cfg: SinglePoolBalanceConfig<F>,
    s: Shape<N>,
    height: BlockHeight,
    limit: nat,
) -> bool {
    forall|a: nat, b: nat|
        #![trigger cfg.change_of(s, height, a), cfg.change_of(s, height, b)]
        a <= b <= limit ==> (cfg.fee_with(s, height, cfg.change_of(s, height, b)) matches Some(y)
            ==> (cfg.fee_with(s, height, cfg.change_of(s, height, a)) matches Some(x) && x <= y))
}

/// Under a fee rule that never asks less for having more change outputs, the fee that balances a
/// transaction is at least what the rule asks for the transaction with the change that it has.
pub proof fn lemma_fee_suffices<N, F: FeeRule>(
    cfg: SinglePoolBalanceConfig<F>,
    s: Shape<N>,
    meta: Option<AccountMeta>,
    height: BlockHeight,
    memo: Option<MemoBytes>,
)
    requires
        cfg.split_policy.wf(),
        grows_with_change(cfg, s, height, cfg.target_count(meta)),
    ensures
        cfg.outcome(s, meta, height, memo) matches Outcome::Balanced { parts, fee } ==> (
        cfg.fee_with(s, height, cfg.change_of(s, height, parts.len())) matches Some(f) && f <= fee),
{
    reveal(SinglePoolBalanceConfig::with_change);
    let target = cfg.target_count(meta);
    assert forall|change: nat| 1 <= #[trigger] parts_wanted(*cfg.split_policy, meta, change)
        && parts_wanted(*cfg.split_policy, meta, change) <= target by {
        lemma_parts_wanted(*cfg.split_policy, meta, change);
    }
    let none = cfg.change_of(s, height, 0);
    assert(none == OutputManifest::none());
    if let Outcome::Balanced { parts, fee } = cfg.outcome(s, meta, height, memo) {
        let made = cfg.change_of(s, height, parts.len());
        let most = cfg.change_of(s, height, target);
    }
}

/// The fee rule of ZIP 317 never asks less of a transaction for having more change outputs.
pub proof fn lemma_zip317_grows<N>(
    cfg: SinglePoolBalanceConfig<Zip317>,
    s: Shape<N>,
    height: BlockHeight,
    limit: nat,
)
    requires
        s.sapling_possible(),
        limit <= usize::MAX,
    ensures
        grows_with_change(cfg, s, height, limit),
{
    reveal(SinglePoolBalanceConfig::fee_with);
}

/// The fee that balances a transaction under the fee rule of ZIP 317 is at least what the rule asks
/// for the transaction with the change that it has.
pub proof fn lemma_zip317_fee_suffices<N>(
    cfg: SinglePoolBalanceConfig<Zip317>,
    s: Shape<N>,
    meta: Option<AccountMeta>,
    height: BlockHeight,
    memo: Option<MemoBytes>,
)
    requires
        cfg.split_policy.wf(),
    ensures
        cfg.outcome(s, meta, height, memo) matches Outcome::Balanced { parts, fee } ==> (
        cfg.fee_with(s, height, cfg.change_of(s, height, parts.len())) matches Some(f) && f <= fee),
{
    if cfg.outcome(s, meta, height, memo) is Balanced {
        lemma_zip317_grows(cfg, s, height, cfg.target_count(meta));
        lemma_fee_suffices(cfg, s, meta, height, memo);
    }
}

} // verus!
