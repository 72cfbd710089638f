//! The fee rule of ZIP 317, under which a fee grows with the number of logical actions.

use vstd::prelude::*;

use crate::consensus::BlockHeight;
use crate::consensus::Params;
use crate::value::BalanceError;
use crate::value::Zatoshis;
use crate::value::MAX_MONEY;

use super::FeeRule;
use super::InputSize;
use super::OutPoint;

verus! {

/// What each logical action beyond the grace actions adds to the fee, in zatoshis.
pub const MARGINAL_FEE: u64 = 5_000;

/// How many logical actions every transaction pays for.
pub const GRACE_ACTIONS: usize = 2;

/// The size of a standard input that spends to a public key hash, in bytes.
pub const P2PKH_STANDARD_INPUT_SIZE: usize = 150;

/// The size of a standard output to a public key hash, in bytes.
pub const P2PKH_STANDARD_OUTPUT_SIZE: usize = 34;

/// The least fee, in zatoshis: that of the grace actions.
pub const MINIMUM_FEE: u64 = 10_000;

/// The ways in which the fee cannot be told.
#[derive(Debug, PartialEq, Eq)]
pub enum FeeError {
    /// The sizes of the inputs that spend these outpoints are not known.
    UnknownP2shInputs(Vec<OutPoint>),
    /// The fee is more than can exist.
    Balance(BalanceError),
}

/// The fee rule of ZIP 317 with its standard parameters.
#[derive(Clone, Copy, Debug, PartialEq, Eq)]
pub struct Zip317;

/// The sum of the sizes of the inputs whose size is known.
pub open spec fn known_size(sizes: Seq<InputSize>) -> nat
    decreases sizes.len(),
{
    if sizes.len() == 0 {
        0
    } else {
        known_size(sizes.drop_last()) + match sizes.last() {
            InputSize::Known(size) => size as nat,
            InputSize::Unknown(_) => 0,
        }
    }
}

/// The outpoints of the inputs whose size is not known.
pub open spec fn unknown_inputs(sizes: Seq<InputSize>) -> Seq<OutPoint>
    decreases sizes.len(),
{
    if sizes.len() == 0 {
        Seq::empty()
    } else {
        match sizes.last() {
            InputSize::Known(_) => unknown_inputs(sizes.drop_last()),
            InputSize::Unknown(outpoint) => unknown_inputs(sizes.drop_last()).push(outpoint),
        }
    }
}

/// The sum of the sizes of the outputs.
pub open spec fn output_size(sizes: Seq<usize>) -> nat
    decreases sizes.len(),
{
    if sizes.len() == 0 {
        0
    } else {
        output_size(sizes.drop_last()) + sizes.last() as nat
    }
}

/// How many parts of the given size cover the whole.
pub open spec fn parts_needed(whole: nat, part: nat) -> nat {
    (whole + part - 1) as nat / part
}

/// The greater of two numbers.
pub open spec fn greater(a: nat, b: nat) -> nat {
    if a >= b {
        a
    } else {
        b
    }
}

/// The number of logical actions of a transaction.
pub open spec fn logical_actions(
    transparent_input_size: nat,
    transparent_output_size: nat,
    sapling_input_count: nat,
    sapling_output_count: nat,
    orchard_action_count: nat,
) -> nat {
    greater(
        parts_needed(transparent_input_size, P2PKH_STANDARD_INPUT_SIZE as nat),
        parts_needed(transparent_output_size, P2PKH_STANDARD_OUTPUT_SIZE as nat),
    ) + greater(sapling_input_count, sapling_output_count) + orchard_action_count
}

/// The fee for a number of logical actions.
pub open spec fn fee_for_actions(actions: nat) -> nat {
    MARGINAL_FEE as nat * greater(GRACE_ACTIONS as nat, actions)
}

impl FeeRule for Zip317 {
    type Error = FeeError;

    open spec fn fee(
        &self,
        params: Params,
        target_height: BlockHeight,
        transparent_input_sizes: Seq<InputSize>,
        transparent_output_sizes: Seq<usize>,
        sapling_input_count: nat,
        sapling_output_count: nat,
        orchard_action_count: nat,
    ) -> Option<nat> {
        let fee = fee_for_actions(
            logical_actions(
                known_size(transparent_input_sizes),
                output_size(transparent_output_sizes),
                sapling_input_count,
                sapling_output_count,
                orchard_action_count,
            ),
        );
        if unknown_inputs(transparent_input_sizes).len() == 0 && fee <= MAX_MONEY {
            Some(fee)
        } else {
            None
        }
    }

    open spec fn fee_error(
        &self,
        params: Params,
        target_height: BlockHeight,
        transparent_input_sizes: Seq<InputSize>,
        transparent_output_sizes: Seq<usize>,
        sapling_input_count: nat,
        sapling_output_count: nat,
        orchard_action_count: nat,
        error: FeeError,
    ) -> bool {
        let unknown = unknown_inputs(transparent_input_sizes);
        match error {
            FeeError::UnknownP2shInputs(outpoints) => unknown.len() > 0 && outpoints@ == unknown,
            FeeError::Balance(e) => unknown.len() == 0 && e == BalanceError::Overflow,
        }
    }

    fn fee_required(
        &self,
        params: &Params,
        target_height: BlockHeight,
        transparent_input_sizes: &[InputSize],
        transparent_output_sizes: &[usize],
        sapling_input_count: usize,
        sapling_output_count: usize,
        orchard_action_count: usize,
    ) -> (r: Result<Zatoshis, FeeError>) {
        let mut input_total: u128 = 0;
        let mut unknown: Vec<OutPoint> = Vec::new();
        let mut i: usize = 0;
        while i < transparent_input_sizes.len()
            invariant
                i <= transparent_input_sizes.len(),
                input_total == known_size(transparent_input_sizes@.take(i as int)),
                input_total <= i * usize::MAX,
                unknown@ == unknown_inputs(transparent_input_sizes@.take(i as int)),
            decreases transparent_input_sizes.len() - i,
        {
            proof {
                assert(transparent_input_sizes@.take(i as int + 1).drop_last()
                    =~= transparent_input_sizes@.take(i as int));
                lemma_size_bound(i as int, transparent_input_sizes@.len() as int);
            }
            match transparent_input_sizes[i] {
                InputSize::Known(size) => {
                    input_total = input_total + size as u128;
                },
                InputSize::Unknown(outpoint) => {
                    unknown.push(outpoint);
                },
            }
            i = i + 1;
        }
        assert(transparent_input_sizes@.take(i as int) =~= transparent_input_sizes@);
        if unknown.len() > 0 {
            return Err(FeeError::UnknownP2shInputs(unknown));
        }
        let mut output_total: u128 = 0;
        let mut j: usize = 0;
        while j < transparent_output_sizes.len()
            invariant
                j <= transparent_output_sizes.len(),
                output_total == output_size(transparent_output_sizes@.take(j as int)),
                output_total <= j * usize::MAX,
            decreases transparent_output_sizes.len() - j,
        {
            proof {
                assert(transparent_output_sizes@.take(j as int + 1).drop_last()
                    =~= transparent_output_sizes@.take(j as int));
                lemma_size_bound(j as int, transparent_output_sizes@.len() as int);
            }
            output_total = output_total + transparent_output_sizes[j] as u128;
            j = j + 1;
        }
        assert(transparent_output_sizes@.take(j as int) =~= transparent_output_sizes@);
        proof {
            lemma_size_bound(i as int, transparent_input_sizes@.len() as int);
            lemma_size_bound(j as int, transparent_output_sizes@.len() as int);
        }
        let input_actions: u128 = ceil_div(input_total, P2PKH_STANDARD_INPUT_SIZE as u128);
        let output_actions: u128 = ceil_div(output_total, P2PKH_STANDARD_OUTPUT_SIZE as u128);
        let transparent_actions: u128 = if input_actions >= output_actions {
            input_actions
        } else {
            output_actions
        };
        let sapling_actions: usize = if sapling_input_count >= sapling_output_count {
            sapling_input_count
        } else {
            sapling_output_count
        };
        let logical: u128 = transparent_actions + sapling_actions as u128
            + orchard_action_count as u128;
        let charged: u128 = if logical >= GRACE_ACTIONS as u128 {
            logical
        } else {
            GRACE_ACTIONS as u128
        };
        if charged > (MAX_MONEY / MARGINAL_FEE) as u128 {
            return Err(FeeError::Balance(BalanceError::Overflow));
        }
        Ok(Zatoshis::const_from_u64(MARGINAL_FEE * charged as u64))
    }
}

/// The sizes of fewer than `n` parts of a transaction leave room for one more in 128 bits.
proof fn lemma_size_bound(i: int, n: int)
    requires
        0 <= i <= n <= usize::MAX,
    ensures
        i * usize::MAX + usize::MAX <= 0xffff_ffff_ffff_ffff_0000_0000_0000_0000,
        (i + 1) * usize::MAX == i * usize::MAX + usize::MAX,
{
    assert(i * usize::MAX <= 0xffff_ffff_ffff_ffff * 0xffff_ffff_ffff_ffff) by (nonlinear_arith)
        requires
            0 <= i <= 0xffff_ffff_ffff_ffff,
            usize::MAX <= 0xffff_ffff_ffff_ffff,
    ;
    assert((i + 1) * usize::MAX == i * usize::MAX + usize::MAX) by (nonlinear_arith);
}

/// How many parts of the given size cover the whole.
fn ceil_div(whole: u128, part: u128) -> (r: u128)
    requires
        0 < part < 1000,
        whole <= 0xffff_ffff_ffff_ffff_0000_0000_0000_0000,
    ensures
        r == parts_needed(whole as nat, part as nat),
        r <= whole,
{
    proof {
        let w = whole as int;
        let p = part as int;
        assert((w + p - 1) / p <= w) by (nonlinear_arith)
            requires
                w >= 0,
                p > 0,
        ;
    }
    (whole + part - 1) / part
}

} // verus!
