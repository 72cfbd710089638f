//! Amounts of money, counted in zatoshis.

use vstd::prelude::*;

verus! {

/// The number of zatoshis in one coin.
pub const COIN: u64 = 100_000_000;

/// The greatest amount of money that can exist, in zatoshis.
pub const MAX_MONEY: u64 = 2_100_000_000_000_000;

/// The ways in which a computation on amounts fails.
#[derive(Clone, Copy, Debug, PartialEq, Eq, Structural)]
pub enum BalanceError {
    /// The result is greater than [`MAX_MONEY`].
    Overflow,
    /// The result is negative.
    Underflow,
}

/// An amount of money, between zero and [`MAX_MONEY`].
#[derive(Clone, Copy, Debug, PartialEq, Eq, PartialOrd, Ord, Structural)]
pub struct Zatoshis {
    zatoshis: u64,
}

/// The parts of an amount that was divided: `dividend == quotient * divisor + remainder`.
#[derive(Clone, Copy, Debug)]
pub struct QuotRem {
    pub quotient: Zatoshis,
    pub remainder: Zatoshis,
}

impl View for Zatoshis {
    type V = nat;

    closed spec fn view(&self) -> nat {
        self.zatoshis as nat
    }
}

impl Zatoshis {
    #[verifier::type_invariant]
    spec fn in_range(self) -> bool {
        self.zatoshis <= MAX_MONEY
    }

    /// No amount, nothing at all.
    pub fn zero() -> (r: Zatoshis)
        ensures
            r@ == 0,
    {
        Zatoshis { zatoshis: 0 }
    }

    /// The amount of `zatoshis`, unless it is more than can exist.
    pub fn from_u64(zatoshis: u64) -> (r: Result<Zatoshis, BalanceError>)
        ensures
            zatoshis <= MAX_MONEY ==> (r matches Ok(z) && z@ == zatoshis),
            zatoshis > MAX_MONEY ==> r == Err::<Zatoshis, BalanceError>(BalanceError::Overflow),
    {
        if zatoshis <= MAX_MONEY {
            Ok(Zatoshis { zatoshis })
        } else {
            Err(BalanceError::Overflow)
        }
    }

    /// The amount of `zatoshis`, which the caller knows to be possible.
    pub fn const_from_u64(zatoshis: u64) -> (r: Zatoshis)
        requires
            zatoshis <= MAX_MONEY,
        ensures
            r@ == zatoshis,
    {
        Zatoshis { zatoshis }
    }

    /// The number of zatoshis.
    pub fn into_u64(self) -> (r: u64)
        ensures
            r == self@,
            r <= MAX_MONEY,
    {
        proof {
            use_type_invariant(&self);
        }
        self.zatoshis
    }

    /// Whether this is no money at all.
    pub fn is_zero(&self) -> (r: bool)
        ensures
            r == (self@ == 0),
    {
        self.zatoshis == 0
    }

    /// Whether this is some money.
    pub fn is_positive(&self) -> (r: bool)
        ensures
            r == (self@ > 0),
    {
        self.zatoshis > 0
    }

    /// The sum of the two amounts, unless it is more than can exist.
    pub fn checked_plus(self, other: Zatoshis) -> (r: Option<Zatoshis>)
        ensures
            self@ + other@ <= MAX_MONEY ==> (r matches Some(z) && z@ == self@ + other@),
            self@ + other@ > MAX_MONEY ==> r is None,
    {
        proof {
            use_type_invariant(&self);
            use_type_invariant(&other);
        }
        let sum: u64 = self.zatoshis + other.zatoshis;
        if sum <= MAX_MONEY {
            Some(Zatoshis { zatoshis: sum })
        } else {
            None
        }
    }

    /// What remains of this amount when `other` is taken away, unless `other` is the greater.
    pub fn checked_minus(self, other: Zatoshis) -> (r: Option<Zatoshis>)
        ensures
            other@ <= self@ ==> (r matches Some(z) && z@ == self@ - other@),
            other@ > self@ ==> r is None,
    {
        proof {
            use_type_invariant(&self);
        }
        if other.zatoshis <= self.zatoshis {
            Some(Zatoshis { zatoshis: self.zatoshis - other.zatoshis })
        } else {
            None
        }
    }

    /// `factor` times this amount, unless it is more than can exist.
    pub fn checked_times(self, factor: usize) -> (r: Option<Zatoshis>)
        ensures
            self@ * factor <= MAX_MONEY ==> (r matches Some(z) && z@ == self@ * factor),
            self@ * factor > MAX_MONEY ==> r is None,
    {
        proof {
            use_type_invariant(&self);
            assert(self.zatoshis * factor <= 2_100_000_000_000_000 * 0xffff_ffff_ffff_ffff)
                by (nonlinear_arith)
                requires
                    self.zatoshis <= 2_100_000_000_000_000,
                    factor <= 0xffff_ffff_ffff_ffff,
            ;
        }
        let product: u128 = self.zatoshis as u128 * factor as u128;
        if product <= MAX_MONEY as u128 {
            Some(Zatoshis { zatoshis: product as u64 })
        } else {
            None
        }
    }

    /// Divides this amount into `divisor` equal parts, with what is left over.
    pub fn div_with_remainder(self, divisor: u64) -> (r: QuotRem)
        requires
            divisor > 0,
        ensures
            r.quotient@ == self@ / (divisor as nat),
            r.remainder@ == self@ % (divisor as nat),
    {
        proof {
            use_type_invariant(&self);
            let n = self.zatoshis as int;
            let d = divisor as int;
            assert(0 <= n / d <= n && 0 <= n % d <= n) by (nonlinear_arith)
                requires
                    n >= 0,
                    d > 0,
            ;
        }
        QuotRem {
            quotient: Zatoshis { zatoshis: self.zatoshis / divisor },
            remainder: Zatoshis { zatoshis: self.zatoshis % divisor },
        }
    }
}

/// The sum of a sequence of amounts.
pub open spec fn total(amounts: Seq<nat>) -> nat
    decreases amounts.len(),
{
    if amounts.len() == 0 {
        0
    } else {
        total(amounts.drop_last()) + amounts.last()
    }
}

/// The total of the first amounts never exceeds the total of all of them.
pub proof fn lemma_total_take(amounts: Seq<nat>, n: int)
    requires
        0 <= n <= amounts.len(),
    ensures
        total(amounts.take(n)) <= total(amounts),
    decreases amounts.len(),
{
    if n < amounts.len() {
        lemma_total_take(amounts.drop_last(), n);
        assert(amounts.drop_last().take(n) =~= amounts.take(n));
    } else {
        assert(amounts.take(n) =~= amounts);
    }
}

/// One more amount adds itself to the total of the first amounts.
pub proof fn lemma_total_step(amounts: Seq<nat>, n: int)
    requires
        0 <= n < amounts.len(),
    ensures
        total(amounts.take(n + 1)) == total(amounts.take(n)) + amounts[n],
{
    assert(amounts.take(n + 1).drop_last() =~= amounts.take(n));
}

} // verus!
