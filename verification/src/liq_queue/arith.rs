//! Checked arithmetic on naturals, the vocabulary in which the liquidation
//! queue's contracts are written: each operation is `None` exactly where the
//! 256-bit computation it stands for overflows or divides by zero.
use vstd::prelude::*;
use crate::math::{u256_limit, u128_limit, fraction};
use crate::decimal256::{dec_mul, dec_div, dec_mul_int, int_div_dec};

verus! {

pub open spec fn o_add(a: nat, b: nat) -> Option<nat> {
    if a + b < u256_limit() { Some(a + b) } else { None }
}

pub open spec fn o_sub(a: nat, b: nat) -> Option<nat> {
    if b <= a { Some((a - b) as nat) } else { None }
}

pub open spec fn o_mul(a: nat, b: nat) -> Option<nat> {
    if a * b < u256_limit() { Some(a * b) } else { None }
}

/// `Decimal256::from_uint256`.
pub open spec fn o_from_int(v: nat) -> Option<nat> {
    o_mul(v, fraction())
}

/// Decimal times decimal.
pub open spec fn o_dmul(a: nat, b: nat) -> Option<nat> {
    if a * b < u256_limit() { Some(dec_mul(a, b)) } else { None }
}

/// Decimal over decimal.
pub open spec fn o_ddiv(a: nat, b: nat) -> Option<nat> {
    if b != 0 && a * fraction() < u256_limit() { Some(dec_div(a, b)) } else { None }
}

/// The integer part of a decimal times an integer.
pub open spec fn o_dmul_int(d: nat, v: nat) -> Option<nat> {
    if v * d < u256_limit() { Some(dec_mul_int(d, v)) } else { None }
}

/// An integer over a decimal.
pub open spec fn o_int_ddiv(v: nat, d: nat) -> Option<nat> {
    if d != 0 && v * fraction() < u256_limit() { Some(int_div_dec(v, d)) } else { None }
}

/// 10 to the power `d`, as the `u128` that the price helpers compute.
pub open spec fn pow10(d: nat) -> nat
    decreases d,
{
    if d == 0 { 1 } else { 10 * pow10((d - 1) as nat) }
}

pub open spec fn o_pow10(d: nat) -> Option<nat> {
    if pow10(d) < u128_limit() { Some(pow10(d)) } else { None }
}

pub proof fn lemma_pow10_mono(i: nat, j: nat)
    requires
        i <= j,
    ensures
        pow10(i) <= pow10(j),
        pow10(i) >= 1,
    decreases j,
{
    if j > i {
        lemma_pow10_mono(i, (j - 1) as nat);
    } else if i > 0 {
        lemma_pow10_mono((i - 1) as nat, (i - 1) as nat);
    }
}

} // verus!
