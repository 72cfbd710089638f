//! The fee of a transaction, and the change that it returns to the wallet.

use vstd::prelude::*;

use crate::consensus::BlockHeight;
use crate::consensus::Params;
use crate::pool::ShieldedProtocol;
use crate::value::lemma_total_step;
use crate::value::lemma_total_take;
use crate::value::total;
use crate::value::BalanceError;
use crate::value::Zatoshis;
use crate::value::MAX_MONEY;

pub mod balance;
pub mod balance_laws;
pub mod common;
pub mod dust;
pub mod dust_laws;
pub mod laws;
pub mod orchard;
pub mod sapling;
pub mod zip317;

verus! {

/// A place in a transaction that holds a transparent output.
#[derive(Clone, Copy, Debug, PartialEq, Eq)]
pub struct OutPoint {
    pub hash: [u8; 32],
    pub n: u32,
}

/// The bytes of a memo.
#[derive(Clone, Copy, Debug, PartialEq, Eq)]
pub struct MemoBytes {
    pub bytes: [u8; 512],
}

/// The serialized size of a transparent input.
#[derive(Clone, Copy, Debug, PartialEq, Eq)]
pub enum InputSize {
    /// The size is known, in bytes.
    Known(usize),
    /// The size of the input that spends this outpoint cannot be told.
    Unknown(OutPoint),
}

/// What fee and change calculation sees of a transparent input.
#[derive(Clone, Copy, Debug, PartialEq, Eq)]
pub struct TransparentInput {
    pub outpoint: OutPoint,
    pub value: Zatoshis,
    pub size: InputSize,
}

/// What fee and change calculation sees of a transparent output.
#[derive(Clone, Copy, Debug, PartialEq, Eq)]
pub struct TransparentOutput {
    pub value: Zatoshis,
    /// The serialized size, in bytes.
    pub size: usize,
}

/// What becomes of change that is not worth an output.
#[derive(Clone, Copy, Debug, PartialEq, Eq, Structural)]
pub enum DustAction {
    /// The transaction is not made.
    Reject,
    /// The change is returned all the same.
    AllowDustChange,
    /// The change goes to the fee.
    AddDustToFee,
}

/// Which change is not worth an output, and what becomes of it.
#[derive(Clone, Copy, Debug, PartialEq, Eq)]
pub struct DustOutputPolicy {
    pub action: DustAction,
    /// The least change that is worth an output, where it is not the default.
    pub dust_threshold: Option<Zatoshis>,
}

/// The transparent output that leads from the first to the second of two chained transactions.
#[derive(Clone, Copy, Debug, PartialEq, Eq)]
pub enum EphemeralBalance {
    /// This is the second transaction, which spends the output.
    Input(Zatoshis),
    /// This is the first transaction, which creates the output.
    Output(Zatoshis),
}

/// What a wallet knows of the notes of an account that are worth spending.
#[derive(Clone, Copy, Debug, PartialEq, Eq)]
pub struct AccountMeta {
    /// The number of notes, in all pools, where it is known.
    pub total_note_count: Option<usize>,
    /// The value of the notes, in all pools, where it is known.
    pub total_value: Option<Zatoshis>,
}

/// How change is divided, so that a wallet holds a number of notes to spend from.
#[derive(Clone, Copy, Debug, PartialEq, Eq)]
pub struct SplitPolicy {
    /// The number of notes that the wallet should hold; at least one.
    pub target_output_count: usize,
    /// The least value that a part of the change should have, where one is set.
    pub min_split_output_value: Option<Zatoshis>,
}

/// An output that returns change to the wallet.
#[derive(Clone, Copy, Debug, PartialEq, Eq)]
pub enum ChangeValue {
    Shielded { protocol: ShieldedProtocol, value: Zatoshis, memo: Option<MemoBytes> },
    EphemeralTransparent { value: Zatoshis },
}

/// The change outputs and the fee that balance a transaction.
#[derive(Debug, PartialEq, Eq)]
pub struct TransactionBalance {
    proposed_change: Vec<ChangeValue>,
    fee_required: Zatoshis,
    total: Zatoshis,
}

/// The ways in which a fee strategy fails.
#[derive(Debug, PartialEq, Eq)]
pub enum StrategyError<FeeError> {
    /// The fee rule failed.
    Fee(FeeError),
    /// Some amount left the range of amounts that can exist.
    Balance(BalanceError),
}

/// The ways in which change cannot be computed.
#[derive(Debug, PartialEq, Eq)]
pub enum ChangeError<FeeError, NoteRefT> {
    /// The inputs do not pay for the outputs and the fee.
    InsufficientFunds { available: Zatoshis, required: Zatoshis },
    /// These inputs are worth less than it costs to spend them.
    DustInputs { transparent: Vec<OutPoint>, sapling: Vec<NoteRefT>, orchard: Vec<NoteRefT> },
    /// The fee strategy failed.
    StrategyError(StrategyError<FeeError>),
    /// A shielded bundle cannot hold what is asked of it.
    BundleError(&'static str),
}

/// A rule that says what fee a transaction has to pay.
pub trait FeeRule {
    /// The ways in which the rule cannot say.
    type Error;

    /// The fee that the rule asks for a transaction of the given shape, if it can say.
    spec fn fee(
        &self,
        params: Params,
        target_height: BlockHeight,
        transparent_input_sizes: Seq<InputSize>,
        transparent_output_sizes: Seq<usize>,
        sapling_input_count: nat,
        sapling_output_count: nat,
        orchard_action_count: nat,
    ) -> Option<nat>;

    /// The errors that the rule may give for a transaction of the given shape.
    spec fn fee_error(
        &self,
        params: Params,
        target_height: BlockHeight,
        transparent_input_sizes: Seq<InputSize>,
        transparent_output_sizes: Seq<usize>,
        sapling_input_count: nat,
        sapling_output_count: nat,
        orchard_action_count: nat,
        error: Self::Error,
    ) -> bool;

    /// The fee that a transaction of the given shape has to pay.
    fn fee_required(
        &self,
        params: &Params,
        target_height: BlockHeight,
        transparent_input_sizes: &[InputSize],
        transparent_output_sizes: &[usize],
        sapling_input_count: usize,
        sapling_output_count: usize,
        orchard_action_count: usize,
    ) -> (r: Result<Zatoshis, Self::Error>)
        ensures
            match r {
                Ok(fee) => self.fee(
                    *params,
                    target_height,
                    transparent_input_sizes@,
                    transparent_output_sizes@,
                    sapling_input_count as nat,
                    sapling_output_count as nat,
                    orchard_action_count as nat,
                ) == Some(fee@),
                Err(error) => self.fee(
                    *params,
                    target_height,
                    transparent_input_sizes@,
                    transparent_output_sizes@,
                    sapling_input_count as nat,
                    sapling_output_count as nat,
                    orchard_action_count as nat,
                ) is None && self.fee_error(
                    *params,
                    target_height,
                    transparent_input_sizes@,
                    transparent_output_sizes@,
                    sapling_input_count as nat,
                    sapling_output_count as nat,
                    orchard_action_count as nat,
                    error,
                ),
            },
    ;
}

impl EphemeralBalance {
    /// What the ephemeral input is worth, if there is one.
    pub open spec fn input(balance: Option<EphemeralBalance>) -> Option<nat> {
        match balance {
            Some(EphemeralBalance::Input(value)) => Some(value@),
            _ => None,
        }
    }

    /// What the ephemeral output is worth, if there is one.
    pub open spec fn output(balance: Option<EphemeralBalance>) -> Option<nat> {
        match balance {
            Some(EphemeralBalance::Output(value)) => Some(value@),
            _ => None,
        }
    }

    /// Whether this transaction spends the ephemeral output.
    pub fn is_input(&self) -> (r: bool)
        ensures
            r == (*self is Input),
    {
        matches!(self, EphemeralBalance::Input(_))
    }

    /// Whether this transaction creates the ephemeral output.
    pub fn is_output(&self) -> (r: bool)
        ensures
            r == (*self is Output),
    {
        matches!(self, EphemeralBalance::Output(_))
    }

    /// What the ephemeral input is worth, if there is one.
    pub fn ephemeral_input_amount(&self) -> (r: Option<Zatoshis>)
        ensures
            r == (match *self {
                EphemeralBalance::Input(value) => Some(value),
                EphemeralBalance::Output(_) => None,
            }),
    {
        match self {
            EphemeralBalance::Input(value) => Some(*value),
            EphemeralBalance::Output(_) => None,
        }
    }

    /// What the ephemeral output is worth, if there is one.
    pub fn ephemeral_output_amount(&self) -> (r: Option<Zatoshis>)
        ensures
            r == (match *self {
                EphemeralBalance::Input(_) => None,
                EphemeralBalance::Output(value) => Some(value),
            }),
    {
        match self {
            EphemeralBalance::Input(_) => None,
            EphemeralBalance::Output(value) => Some(*value),
        }
    }
}

impl ChangeValue {
    /// What the output is worth.
    pub open spec fn amount(self) -> nat {
        match self {
            ChangeValue::Shielded { value, .. } => value@,
            ChangeValue::EphemeralTransparent { value } => value@,
        }
    }

    /// A shielded change output.
    pub fn shielded(
        protocol: ShieldedProtocol,
        value: Zatoshis,
        memo: Option<MemoBytes>,
    ) -> (r: ChangeValue)
        ensures
            r == (ChangeValue::Shielded { protocol, value, memo }),
    {
        ChangeValue::Shielded { protocol, value, memo }
    }

    /// The ephemeral transparent output of the first of two chained transactions.
    pub fn ephemeral_transparent(value: Zatoshis) -> (r: ChangeValue)
        ensures
            r == (ChangeValue::EphemeralTransparent { value }),
    {
        ChangeValue::EphemeralTransparent { value }
    }

    /// What the output is worth.
    pub fn value(&self) -> (r: Zatoshis)
        ensures
            r@ == self.amount(),
    {
        match self {
            ChangeValue::Shielded { value, .. } => *value,
            ChangeValue::EphemeralTransparent { value } => *value,
        }
    }
}

/// What each of the change outputs is worth.
pub open spec fn amounts(change: Seq<ChangeValue>) -> Seq<nat> {
    change.map_values(|c: ChangeValue| c.amount())
}

impl TransactionBalance {
    /// The change outputs.
    pub closed spec fn change(self) -> Seq<ChangeValue> {
        self.proposed_change@
    }

    /// The fee.
    pub closed spec fn fee(self) -> nat {
        self.fee_required@
    }

    /// What the change outputs and the fee come to.
    pub closed spec fn sum(self) -> nat {
        self.total@
    }

    /// The balance that consists of the given change outputs and fee, unless these come to more
    /// than can exist.
    pub fn new(proposed_change: Vec<ChangeValue>, fee_required: Zatoshis) -> (r: Result<
        TransactionBalance,
        (),
    >)
        ensures
            r is Ok <==> total(amounts(proposed_change@)) + fee_required@ <= MAX_MONEY,
            r matches Ok(balance) ==> balance.change() == proposed_change@ && balance.fee()
                == fee_required@ && balance.sum() == total(amounts(proposed_change@))
                + fee_required@,
    {
        let ghost parts = amounts(proposed_change@);
        let mut sum: Zatoshis = Zatoshis::zero();
        let mut i: usize = 0;
        while i < proposed_change.len()
            invariant
                i <= proposed_change.len(),
                parts == amounts(proposed_change@),
                sum@ == total(parts.take(i as int)),
            decreases proposed_change.len() - i,
        {
            proof {
                lemma_total_step(parts, i as int);
                lemma_total_take(parts, i as int + 1);
            }
            match sum.checked_plus(proposed_change[i].value()) {
                Some(next) => {
                    sum = next;
                },
                None => {
                    return Err(());
                },
            }
            i = i + 1;
        }
        assert(parts.take(i as int) =~= parts);
        match sum.checked_plus(fee_required) {
            Some(total) => Ok(TransactionBalance { proposed_change, fee_required, total }),
            None => Err(()),
        }
    }

    /// The change outputs.
    pub fn proposed_change(&self) -> (r: &[ChangeValue])
        ensures
            r@ == self.change(),
    {
        self.proposed_change.as_slice()
    }

    /// The fee.
    pub fn fee_required(&self) -> (r: Zatoshis)
        ensures
            r@ == self.fee(),
    {
        self.fee_required
    }

    /// What the change outputs and the fee come to.
    pub fn total(&self) -> (r: Zatoshis)
        ensures
            r@ == self.sum(),
    {
        self.total
    }
}

/// How many change outputs are made at most, when `existing_notes` notes are in the wallet.
pub open spec fn missing_notes(target: nat, existing_notes: Option<usize>) -> nat {
    let missing = match existing_notes {
        Some(n) => target - n,
        None => 0,
    };
    if missing < 1 {
        1
    } else {
        missing as nat
    }
}

impl SplitPolicy {
    /// Whether the policy asks for at least one note.
    pub open spec fn wf(self) -> bool {
        self.target_output_count >= 1
    }

    /// The least value that a part of the change should have, where one can be told: the one that
    /// is set, or else a quarter of the average value of the notes that the wallet should hold
    /// after the transaction.
    pub open spec fn least_part(
        self,
        existing_notes_total: Option<Zatoshis>,
        total_change: nat,
    ) -> Option<nat> {
        match (self.min_split_output_value, existing_notes_total) {
            (Some(least), _) => Some(least@),
            (None, Some(existing)) => if existing@ + total_change <= MAX_MONEY {
                Some((existing@ + total_change) / quarter_parts(self.target_output_count))
            } else {
                None
            },
            (None, None) => None,
        }
    }

    /// Whether `n` is the greatest number of parts, up to `limit`, into which `total_change` can
    /// be divided such that each is worth `least`; or one, if no number is.
    pub open spec fn is_split(n: nat, limit: nat, least: nat, total_change: nat) -> bool {
        &&& 1 <= n <= limit
        &&& n > 1 ==> total_change / n >= least
        &&& forall|m: nat| n < m <= limit ==> #[trigger] (total_change / m) < least
    }

    /// How many parts the change is divided into: as many as notes are missing from the wallet,
    /// as long as each is worth enough.
    pub fn split_count(
        &self,
        existing_notes: Option<usize>,
        existing_notes_total: Option<Zatoshis>,
        total_change: Zatoshis,
    ) -> (r: usize)
        requires
            self.wf(),
        ensures
            match self.least_part(existing_notes_total, total_change@) {
                Some(least) => Self::is_split(
                    r as nat,
                    missing_notes(self.target_output_count as nat, existing_notes),
                    least,
                    total_change@,
                ),
                None => r == 1,
            },
    {
        let mut split_count: usize = missing_note_count(self.target_output_count, existing_notes);
        let least: Zatoshis = match self.min_split_output_value {
            Some(least) => least,
            None => {
                match existing_notes_total {
                    Some(existing) => {
                        match existing.checked_plus(total_change) {
                            Some(sum) => {
                                let parts: usize = match self.target_output_count.checked_mul(4) {
                                    Some(parts) => parts,
                                    None => usize::MAX,
                                };
                                sum.div_with_remainder(parts as u64).quotient
                            },
                            None => {
                                return 1;
                            },
                        }
                    },
                    None => {
                        return 1;
                    },
                }
            },
        };
        let ghost limit = missing_notes(self.target_output_count as nat, existing_notes);
        loop
            invariant
                1 <= split_count <= limit,
                self.least_part(existing_notes_total, total_change@) == Some(least@),
                limit == missing_notes(self.target_output_count as nat, existing_notes),
                forall|m: nat| split_count < m <= limit ==> #[trigger] (total_change@ / m) < least@,
            decreases split_count,
        {
            let part: Zatoshis = total_change.div_with_remainder(split_count as u64).quotient;
            if part.into_u64() >= least.into_u64() {
                return split_count;
            }
            if split_count == 1 {
                return 1;
            }
            split_count = split_count - 1;
        }
    }
}

/// Four times the number of notes that a wallet should hold, as far as a machine can count.
pub open spec fn quarter_parts(target: usize) -> nat {
    if target * 4 <= usize::MAX {
        (target * 4) as nat
    } else {
        usize::MAX as nat
    }
}

/// How many change outputs are made at most, when `existing_notes` notes are in the wallet.
pub fn missing_note_count(target: usize, existing_notes: Option<usize>) -> (r: usize)
    ensures
        r == missing_notes(target as nat, existing_notes),
{
    match existing_notes {
        Some(n) => if target > n {
            target - n
        } else {
            1
        },
        None => 1,
    }
}

} // verus!
