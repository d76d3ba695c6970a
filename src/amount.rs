//! 256-bit unsigned amounts.
//!
//! An `Amount` holds the four little-endian 64-bit words of a
//! `primitive_types::U256`; all arithmetic on it is checked and done by that
//! type.
use primitive_types::U256;
use vstd::prelude::*;

verus! {

/// 2^64, the weight of one word.
pub open spec fn word_base() -> nat {
    18446744073709551616
}

/// The largest amount, 2^256 - 1.
pub open spec fn amount_max() -> nat {
    (word_base() * word_base() * word_base() * word_base() - 1) as nat
}

/// A 256-bit unsigned integer, stored as four little-endian 64-bit words.
#[derive(Clone, Copy, Debug, PartialEq, Eq, Hash)]
pub struct Amount {
    pub w0: u64,
    pub w1: u64,
    pub w2: u64,
    pub w3: u64,
}

impl View for Amount {
    type V = nat;

    open spec fn view(&self) -> nat {
        self.w0 as nat + word_base() * (self.w1 as nat + word_base() * (self.w2 as nat
            + word_base() * self.w3 as nat))
    }
}

/// Every amount is at most `amount_max()`.
pub proof fn lemma_amount_bounded(a: Amount)
    ensures
        a@ <= amount_max(),
{
    let b = word_base() as int;
    let x0 = a.w0 as int;
    let x1 = a.w1 as int;
    let x2 = a.w2 as int;
    let x3 = a.w3 as int;
    assert(b == 18446744073709551616);
    assert(x2 + b * x3 <= b * b - 1) by (nonlinear_arith)
        requires
            0 <= x2 < b,
            0 <= x3 < b,
    ;
    let y = x2 + b * x3;
    assert(x1 + b * y <= b * b * b - 1) by (nonlinear_arith)
        requires
            0 <= x1 < b,
            0 <= y <= b * b - 1,
    ;
    let z = x1 + b * y;
    assert(x0 + b * z <= b * b * b * b - 1) by (nonlinear_arith)
        requires
            0 <= x0 < b,
            0 <= z <= b * b * b - 1,
    ;
}

impl Amount {
    /// The amount zero.
    pub fn zero() -> (r: Amount)
        ensures
            r@ == 0,
    {
        Amount { w0: 0, w1: 0, w2: 0, w3: 0 }
    }

    /// The largest amount, 2^256 - 1.
    pub fn max_value() -> (r: Amount)
        ensures
            r@ == amount_max(),
    {
        let r = Amount { w0: u64::MAX, w1: u64::MAX, w2: u64::MAX, w3: u64::MAX };
        proof {
            let b = word_base() as int;
            let m = b - 1;
            assert(m + b * (m + b * (m + b * m)) == b * b * b * b - 1) by (nonlinear_arith)
                requires
                    m == b - 1,
            ;
        }
        r
    }

    /// The amount equal to `v`.
    pub fn from_u64(v: u64) -> (r: Amount)
        ensures
            r@ == v as nat,
    {
        Amount { w0: v, w1: 0, w2: 0, w3: 0 }
    }

    /// Relies on `U256::checked_add`: `None` exactly when the sum exceeds 256 bits.
    #[verifier::external_body]
    pub(crate) fn checked_add(self, other: Amount) -> (r: Option<Amount>)
        ensures
            r is Some <==> self@ + other@ <= amount_max(),
            r is Some ==> r->0@ == self@ + other@,
    {
        let a = U256([self.w0, self.w1, self.w2, self.w3]);
        let b = U256([other.w0, other.w1, other.w2, other.w3]);
        a.checked_add(b).map(|v| Amount { w0: v.0[0], w1: v.0[1], w2: v.0[2], w3: v.0[3] })
    }

    /// Relies on `U256::checked_sub`: `None` exactly when `other` exceeds `self`.
    #[verifier::external_body]
    pub(crate) fn checked_sub(self, other: Amount) -> (r: Option<Amount>)
        ensures
            r is Some <==> other@ <= self@,
            r is Some ==> r->0@ == self@ - other@,
    {
        let a = U256([self.w0, self.w1, self.w2, self.w3]);
        let b = U256([other.w0, other.w1, other.w2, other.w3]);
        a.checked_sub(b).map(|v| Amount { w0: v.0[0], w1: v.0[1], w2: v.0[2], w3: v.0[3] })
    }

    /// Relies on `U256::checked_mul`: `None` exactly when the product exceeds 256 bits.
    #[verifier::external_body]
    pub(crate) fn checked_mul(self, other: Amount) -> (r: Option<Amount>)
        ensures
            r is Some <==> self@ * other@ <= amount_max(),
            r is Some ==> r->0@ == self@ * other@,
    {
        let a = U256([self.w0, self.w1, self.w2, self.w3]);
        let b = U256([other.w0, other.w1, other.w2, other.w3]);
        a.checked_mul(b).map(|v| Amount { w0: v.0[0], w1: v.0[1], w2: v.0[2], w3: v.0[3] })
    }

    /// Relies on `U256::checked_div`: floor division, `None` exactly for a zero divisor.
    #[verifier::external_body]
    pub(crate) fn checked_div(self, other: Amount) -> (r: Option<Amount>)
        ensures
            r is Some <==> other@ != 0,
            r is Some ==> r->0@ == self@ / other@,
    {
        let a = U256([self.w0, self.w1, self.w2, self.w3]);
        let b = U256([other.w0, other.w1, other.w2, other.w3]);
        a.checked_div(b).map(|v| Amount { w0: v.0[0], w1: v.0[1], w2: v.0[2], w3: v.0[3] })
    }

    /// Relies on `U256::checked_rem`: the remainder, `None` exactly for a zero divisor.
    #[verifier::external_body]
    pub(crate) fn checked_rem(self, other: Amount) -> (r: Option<Amount>)
        ensures
            r is Some <==> other@ != 0,
            r is Some ==> r->0@ == self@ % other@,
    {
        let a = U256([self.w0, self.w1, self.w2, self.w3]);
        let b = U256([other.w0, other.w1, other.w2, other.w3]);
        a.checked_rem(b).map(|v| Amount { w0: v.0[0], w1: v.0[1], w2: v.0[2], w3: v.0[3] })
    }

    /// Relies on the order of `U256` (`Ord`, comparing words from the most significant).
    #[verifier::external_body]
    pub(crate) fn le(&self, other: &Amount) -> (r: bool)
        ensures
            r == (self@ <= other@),
    {
        let a = U256([self.w0, self.w1, self.w2, self.w3]);
        let b = U256([other.w0, other.w1, other.w2, other.w3]);
        a <= b
    }

    /// Division rounded up; `None` exactly for a zero divisor. It never
    /// overflows: the quotient is raised by one only when a remainder is left.
    pub fn checked_ceil_div(self, other: Amount) -> (r: Option<Amount>)
        ensures
            r is Some <==> other@ != 0,
            r is Some ==> r->0@ == ceil_div(self@, other@),
    {
        let q = match self.checked_div(other) {
            Some(q) => q,
            None => return None,
        };
        let rem = self.checked_rem(other).unwrap();
        if rem.le(&Amount::zero()) {
            Some(q)
        } else {
            proof {
                lemma_amount_bounded(self);
                lemma_ceil_quotient_fits(self@, other@);
            }
            q.checked_add(Amount::from_u64(1))
        }
    }
}

/// `a / b` rounded up.
pub open spec fn ceil_div(a: nat, b: nat) -> nat
    recommends
        b != 0,
{
    if a % b == 0 {
        a / b
    } else {
        a / b + 1
    }
}

proof fn lemma_ceil_quotient_fits(a: nat, b: nat)
    requires
        b != 0,
        a % b != 0,
        a <= amount_max(),
    ensures
        a / b + 1 <= amount_max(),
{
    if b == 1 {
        assert(a % 1 == 0) by (nonlinear_arith);
    } else {
        assert(a / b <= a / 2) by (nonlinear_arith)
            requires
                b >= 2,
        {
            vstd::arithmetic::div_mod::lemma_div_is_ordered_by_denominator(a as int, 2, b as int);
        }
    }
}

} // verus!
