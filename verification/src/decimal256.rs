//! The 18-place fixed-point `Decimal256` of the liquidation queue.
//!
//! A decimal `d` stands for `d.atomics / 10^18`. Every operation is stated
//! over the atomics as natural numbers. Products and quotients are formed
//! in 256 bits, from `Uint256` operations, as the queue's arithmetic always
//! has: an operation whose 256-bit intermediate does not fit answers `None`
//! (`cosmwasm_std::Decimal256`, which widens to 512 bits, accepts more).
use vstd::prelude::*;
use crate::math::{Uint256, u256_limit, fraction, u256_of, lemma_u256_of};

verus! {

/// `a * b` of two decimals: the atomics' product over 10^18, floored.
pub open spec fn dec_mul(a: nat, b: nat) -> nat {
    (a * b) / fraction()
}

/// `a / b` of two decimals (`b != 0`): `a * 10^18 / b`, floored.
pub open spec fn dec_div(a: nat, b: nat) -> nat {
    (a * fraction()) / b
}

/// A decimal times an integer: the integer part of `d * v`, that is `v * d.atomics / 10^18`.
pub open spec fn dec_mul_int(d: nat, v: nat) -> nat {
    (v * d) / fraction()
}

/// An integer over a decimal (`d != 0`): `v * 10^18 / d.atomics`, floored.
pub open spec fn int_div_dec(v: nat, d: nat) -> nat {
    (v * fraction()) / d
}

/// The decimal with atomics `n` (where there is one).
pub open spec fn dec_of(n: nat) -> Decimal256 {
    Decimal256 { atomics: u256_of(n) }
}

/// A decimal is determined by its atomics.
pub proof fn lemma_dec_of(d: Decimal256)
    ensures
        dec_of(d.v()) == d,
{
    lemma_u256_of(d.atomics);
}

/// A fixed-point decimal with 18 places, held by its atomics.
#[derive(Clone, Copy, Debug)]
pub struct Decimal256 {
    pub atomics: Uint256,
}

impl Decimal256 {
    /// The atomics of this decimal as a natural number.
    pub open spec fn v(self) -> nat {
        self.atomics.value()
    }

    pub fn zero() -> (r: Decimal256)
        ensures
            r.v() == 0,
    {
        Decimal256 { atomics: Uint256::zero() }
    }

    pub fn one() -> (r: Decimal256)
        ensures
            r.v() == fraction(),
    {
        Decimal256 { atomics: Uint256::from_u128(1_000_000_000_000_000_000u128) }
    }

    /// `x` percent.
    pub fn percent(x: u64) -> (r: Decimal256)
        ensures
            r.v() == x as nat * 10_000_000_000_000_000nat,
    {
        let a: u128 = (x as u128) * 10_000_000_000_000_000u128;
        Decimal256 { atomics: Uint256::from_u128(a) }
    }

    /// A decimal with the given atomics.
    pub fn from_atomics(atomics: Uint256) -> (r: Decimal256)
        ensures
            r.v() == atomics.value(),
    {
        Decimal256 { atomics }
    }

    /// The decimal with the value of the integer `v`; `None` where `v * 10^18` reaches 2^256.
    pub fn from_uint256(v: Uint256) -> (r: Option<Decimal256>)
        ensures
            r is Some <==> v.value() * fraction() < u256_limit(),
            r matches Some(d) ==> d.v() == v.value() * fraction(),
    {
        let f = Uint256::from_u128(1_000_000_000_000_000_000u128);
        match v.checked_mul(f) {
            Some(a) => Some(Decimal256 { atomics: a }),
            None => None,
        }
    }

    pub fn checked_add(self, other: Decimal256) -> (r: Option<Decimal256>)
        ensures
            r is Some <==> self.v() + other.v() < u256_limit(),
            r matches Some(d) ==> d.v() == self.v() + other.v(),
    {
        match self.atomics.checked_add(other.atomics) {
            Some(a) => Some(Decimal256 { atomics: a }),
            None => None,
        }
    }

    pub fn checked_sub(self, other: Decimal256) -> (r: Option<Decimal256>)
        ensures
            r is Some <==> other.v() <= self.v(),
            r matches Some(d) ==> d.v() == self.v() - other.v(),
    {
        match self.atomics.checked_sub(other.atomics) {
            Some(a) => Some(Decimal256 { atomics: a }),
            None => None,
        }
    }

    /// Product of two decimals; `None` where the atomics' product reaches 2^256.
    pub fn checked_mul(self, other: Decimal256) -> (r: Option<Decimal256>)
        ensures
            r is Some <==> self.v() * other.v() < u256_limit(),
            r matches Some(d) ==> d.v() == dec_mul(self.v(), other.v()),
    {
        let f = Uint256::from_u128(1_000_000_000_000_000_000u128);
        match self.atomics.checked_mul(other.atomics) {
            Some(p) => match p.checked_div(f) {
                Some(q) => Some(Decimal256 { atomics: q }),
                None => None,
            },
            None => None,
        }
    }

    /// Quotient of two decimals; `None` where `other` is zero or
    /// `self.atomics * 10^18` reaches 2^256.
    pub fn checked_div(self, other: Decimal256) -> (r: Option<Decimal256>)
        ensures
            r is Some <==> (other.v() != 0 && self.v() * fraction() < u256_limit()),
            r matches Some(d) ==> d.v() == dec_div(self.v(), other.v()),
    {
        let f = Uint256::from_u128(1_000_000_000_000_000_000u128);
        if other.atomics.is_zero() {
            return None;
        }
        match self.atomics.checked_mul(f) {
            Some(p) => match p.checked_div(other.atomics) {
                Some(q) => Some(Decimal256 { atomics: q }),
                None => None,
            },
            None => None,
        }
    }

    /// The integer part of `self * v`; `None` where `v * self.atomics` reaches 2^256.
    pub fn mul_uint(self, v: Uint256) -> (r: Option<Uint256>)
        ensures
            r is Some <==> v.value() * self.v() < u256_limit(),
            r matches Some(x) ==> x.value() == dec_mul_int(self.v(), v.value()),
    {
        let f = Uint256::from_u128(1_000_000_000_000_000_000u128);
        match v.checked_mul(self.atomics) {
            Some(p) => p.checked_div(f),
            None => None,
        }
    }

    /// `v / self` floored; `None` where `self` is zero or `v * 10^18` reaches 2^256.
    pub fn div_uint(self, v: Uint256) -> (r: Option<Uint256>)
        ensures
            r is Some <==> (self.v() != 0 && v.value() * fraction() < u256_limit()),
            r matches Some(x) ==> x.value() == int_div_dec(v.value(), self.v()),
    {
        let f = Uint256::from_u128(1_000_000_000_000_000_000u128);
        if self.atomics.is_zero() {
            return None;
        }
        match v.checked_mul(f) {
            Some(p) => p.checked_div(self.atomics),
            None => None,
        }
    }

    pub fn lt(&self, other: &Decimal256) -> (r: bool)
        ensures
            r == (self.v() < other.v()),
    {
        self.atomics.lt(&other.atomics)
    }

    pub fn le(&self, other: &Decimal256) -> (r: bool)
        ensures
            r == (self.v() <= other.v()),
    {
        self.atomics.le(&other.atomics)
    }

    pub fn eq(&self, other: &Decimal256) -> (r: bool)
        ensures
            r == (self.v() == other.v()),
    {
        self.atomics.eq(&other.atomics)
    }

    pub fn is_zero(&self) -> (r: bool)
        ensures
            r == (self.v() == 0),
    {
        self.atomics.is_zero()
    }
}

} // verus!
