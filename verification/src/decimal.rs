//! 128-bit fixed-point decimals with 18 places, held by their atomics, with
//! the operations of `cosmwasm_std::Decimal` and `cosmwasm_std::Uint128`.
use vstd::prelude::*;
use crate::math::{fraction, u128_limit};

verus! {

/// `a * b` of two decimals: the product of the atomics over 10^18, rounded down.
pub open spec fn dmul(a: nat, b: nat) -> nat {
    (a * b) / fraction()
}

/// `a / b` of two decimals: `a` times 10^18 over `b`, rounded down.
pub open spec fn ddiv(a: nat, b: nat) -> nat {
    (a * fraction()) / b
}

/// `cosmwasm_std::Decimal::checked_mul`: the product fits in 128 bits.
#[verifier::external_body]
pub(crate) fn decimal_checked_mul(a: u128, b: u128) -> (r: Option<u128>)
    ensures
        r is Some <==> dmul(a as nat, b as nat) < u128_limit(),
        r matches Some(c) ==> c as nat == dmul(a as nat, b as nat),
{
    match cosmwasm_std::Decimal::raw(a).checked_mul(cosmwasm_std::Decimal::raw(b)) {
        Ok(d) => Some(d.atomics().u128()),
        Err(_) => None,
    }
}

/// `cosmwasm_std::Decimal::checked_div`: the divisor is not zero and the
/// quotient fits in 128 bits.
#[verifier::external_body]
pub(crate) fn decimal_checked_div(a: u128, b: u128) -> (r: Option<u128>)
    ensures
        r is Some <==> (b != 0 && ddiv(a as nat, b as nat) < u128_limit()),
        r matches Some(c) ==> c as nat == ddiv(a as nat, b as nat),
{
    match cosmwasm_std::Decimal::raw(a).checked_div(cosmwasm_std::Decimal::raw(b)) {
        Ok(d) => Some(d.atomics().u128()),
        Err(_) => None,
    }
}

/// `cosmwasm_std::Decimal::from_atomics(v, 6)`: the decimal `v / 10^6`,
/// whose atomics are `v * 10^12`, if they fit in 128 bits.
#[verifier::external_body]
pub(crate) fn decimal_from_micro(v: u128) -> (r: Option<u128>)
    ensures
        r is Some <==> v as nat * 1_000_000_000_000nat < u128_limit(),
        r matches Some(c) ==> c as nat == v as nat * 1_000_000_000_000nat,
{
    match cosmwasm_std::Decimal::from_atomics(cosmwasm_std::Uint128::new(v), 6) {
        Ok(d) => Some(d.atomics().u128()),
        Err(_) => None,
    }
}

/// The ten decimal digits.
pub open spec fn digit_chars() -> Seq<char> {
    seq!['0', '1', '2', '3', '4', '5', '6', '7', '8', '9']
}

/// The decimal digits of `n`, without leading zeros (`0` for zero).
pub open spec fn decimal_digits(n: nat) -> Seq<char>
    decreases n,
{
    if n < 10 {
        seq![digit_chars()[n as int]]
    } else {
        decimal_digits(n / 10).push(digit_chars()[(n % 10) as int])
    }
}

/// Whether `c` is a decimal digit.
pub open spec fn is_digit(c: char) -> bool {
    48 <= (c as u32) && (c as u32) <= 57
}

/// The number the decimal digits `s` write.
pub open spec fn digits_value(s: Seq<char>) -> nat
    decreases s.len(),
{
    if s.len() == 0 { 0 } else { digits_value(s.drop_last()) * 10 + ((s.last() as u32) - 48) as nat }
}

/// What `u128::from_str` parses the text as, where it does: an optional
/// `+`, then one digit or more, whose value fits in 128 bits.
pub open spec fn uint128_from_str(s: Seq<char>) -> Option<u128> {
    let t = if s.len() > 0 && s[0] == '+' { s.drop_first() } else { s };
    if t.len() > 0 && (forall|i: int| 0 <= i < t.len() ==> is_digit(#[trigger] t[i])) && digits_value(t) < u128_limit() {
        Some(digits_value(t) as u128)
    } else {
        None
    }
}

/// The index of the first `.` in `s`.
pub open spec fn dot_index(s: Seq<char>) -> Option<int>
    decreases s.len(),
{
    if s.len() == 0 {
        None
    } else {
        match dot_index(s.drop_last()) {
            Some(i) => Some(i),
            None => if s.last() == '.' { Some(s.len() - 1) } else { None },
        }
    }
}

/// What `cosmwasm_std::Decimal::from_str` parses the text as (its
/// atomics), where it does: a whole part as `u128::from_str` reads it, and
/// at most one `.` followed by a fractional part of at most 18 characters
/// that `u128::from_str` reads too, the value fitting in 128 bits.
pub open spec fn decimal_from_str(s: Seq<char>) -> Option<u128> {
    match dot_index(s) {
        None => match uint128_from_str(s) {
            Some(w) => if w as nat * fraction() < u128_limit() { Some((w as nat * fraction()) as u128) } else { None },
            None => None,
        },
        Some(i) => {
            let rest = s.skip(i + 1);
            match (uint128_from_str(s.take(i)), uint128_from_str(rest)) {
                (Some(w), Some(f)) => {
                    let v = w as nat * fraction() + f as nat * crate::decimal::pow10((18 - rest.len()) as nat);
                    if dot_index(rest) is None && rest.len() <= 18 && v < u128_limit() { Some(v as u128) } else { None }
                },
                _ => None,
            }
        },
    }
}

/// How `u128`'s `Display`, and so `cosmwasm_std::Uint128`'s, writes `v`.
pub open spec fn uint128_text(v: u128) -> Seq<char> {
    decimal_digits(v as nat)
}

/// `s` without its trailing zeros.
pub open spec fn trim_zeros(s: Seq<char>) -> Seq<char>
    decreases s.len(),
{
    if s.len() > 0 && s.last() == '0' { trim_zeros(s.drop_last()) } else { s }
}

/// The digits of `n` padded with zeros in front to `width` characters.
pub open spec fn padded_digits(n: nat, width: nat) -> Seq<char> {
    let d = decimal_digits(n);
    Seq::new((width - d.len()) as nat, |i: int| '0') + d
}

/// How `cosmwasm_std::Decimal` writes the decimal with atomics `v`: its
/// whole part, then, where there is a fraction, `.` and the 18 fractional
/// digits without their trailing zeros.
pub open spec fn decimal_text(v: u128) -> Seq<char> {
    let whole = v as nat / fraction();
    let frac = v as nat % fraction();
    if frac == 0 {
        decimal_digits(whole)
    } else {
        decimal_digits(whole) + seq!['.'] + trim_zeros(padded_digits(frac, 18))
    }
}

/// `cosmwasm_std::Uint128::from_str`, which is `u128::from_str`.
#[verifier::external_body]
pub(crate) fn parse_uint128(s: &String) -> (r: Option<u128>)
    ensures
        r == uint128_from_str(s@),
{
    match <cosmwasm_std::Uint128 as std::str::FromStr>::from_str(s.as_str()) {
        Ok(v) => Some(v.u128()),
        Err(_) => None,
    }
}

/// `cosmwasm_std::Decimal::from_str` (see `decimal_from_str`).
#[verifier::external_body]
pub(crate) fn parse_decimal(s: &String) -> (r: Option<u128>)
    ensures
        r == decimal_from_str(s@),
{
    match <cosmwasm_std::Decimal as std::str::FromStr>::from_str(s.as_str()) {
        Ok(d) => Some(d.atomics().u128()),
        Err(_) => None,
    }
}

/// The `Display` text of `cosmwasm_std::Uint128::new(v)`.
#[verifier::external_body]
pub(crate) fn uint128_to_string(v: u128) -> (r: String)
    ensures
        r@ == uint128_text(v),
{
    cosmwasm_std::Uint128::new(v).to_string()
}

/// The `Display` text of `cosmwasm_std::Decimal::raw(v)`.
#[verifier::external_body]
pub(crate) fn decimal_to_string(v: u128) -> (r: String)
    ensures
        r@ == decimal_text(v),
{
    cosmwasm_std::Decimal::raw(v).to_string()
}


/// `cosmwasm_std::Decimal::checked_from_ratio(n, d)`: the decimal `n / d`,
/// whose atomics are `n * 10^18 / d` rounded down, where `d` is not zero and
/// they fit in 128 bits.
#[verifier::external_body]
pub(crate) fn decimal_from_ratio(n: u128, d: u128) -> (r: Option<u128>)
    ensures
        r is Some <==> (d != 0 && ddiv(n as nat, d as nat) < u128_limit()),
        r matches Some(c) ==> c as nat == ddiv(n as nat, d as nat),
{
    match cosmwasm_std::Decimal::checked_from_ratio(n, d) {
        Ok(v) => Some(v.atomics().u128()),
        Err(_) => None,
    }
}

/// `cosmwasm_std::Uint128::checked_multiply_ratio(u, d, 10^18)`, which is
/// `u * d` for a decimal `d`: rounded down, where it fits in 128 bits.
#[verifier::external_body]
pub(crate) fn uint_mul_decimal(u: u128, d: u128) -> (r: Option<u128>)
    ensures
        r is Some <==> dmul(u as nat, d as nat) < u128_limit(),
        r matches Some(c) ==> c as nat == dmul(u as nat, d as nat),
{
    match cosmwasm_std::Uint128::new(u).checked_multiply_ratio(d, 1_000_000_000_000_000_000u128) {
        Ok(v) => Some(v.u128()),
        Err(_) => None,
    }
}

/// `10^n`.
pub open spec fn pow10(n: nat) -> nat
    decreases n,
{
    if n == 0 { 1 } else { 10 * pow10((n - 1) as nat) }
}

/// Whether `r` is the integer square root of `n`: the largest number whose
/// square is at most `n`.
pub open spec fn is_isqrt(r: nat, n: nat) -> bool {
    r * r <= n && n < (r + 1) * (r + 1)
}

/// The integer square root of `n`.
pub open spec fn isqrt(n: nat) -> nat {
    choose|r: nat| is_isqrt(r, n)
}

/// The precision, from `p` down, at which `Decimal::sqrt` works on the
/// atomics `a`: the highest at which `a * 100^p` fits in 128 bits, else 0.
pub open spec fn sqrt_precision(a: nat, p: nat) -> nat
    decreases p,
{
    if p == 0 || a * pow10(2 * p) < u128_limit() { p } else { sqrt_precision(a, (p - 1) as nat) }
}

/// The atomics of `Decimal::sqrt` of the decimal with atomics `a`: at the
/// precision `p = sqrt_precision(a, 9)`, the integer square root of
/// `a * 100^p`, times `10^(9 - p)`.
pub open spec fn decimal_sqrt_atomics(a: nat) -> nat {
    let p = sqrt_precision(a, 9);
    isqrt(a * pow10(2 * p)) * pow10((9 - p) as nat)
}

/// `cosmwasm_std::Decimal::sqrt`: tried at precisions 9 down to 0, the
/// first at which the atomics times `100^p` fit in 128 bits gives the
/// integer square root of that product times `10^(9 - p)`.
#[verifier::external_body]
pub(crate) fn decimal_sqrt(a: u128) -> (r: u128)
    ensures
        r as nat == decimal_sqrt_atomics(a as nat),
{
    cosmwasm_std::Decimal::raw(a).sqrt().atomics().u128()
}

/// Every number has an integer square root.
pub proof fn lemma_isqrt(n: nat)
    ensures
        is_isqrt(isqrt(n), n),
    decreases n,
{
    if n == 0 {
        assert(0nat * 0nat == 0nat && 1nat * 1nat == 1nat) by (nonlinear_arith);
        assert(is_isqrt(0, 0));
    } else {
        let m = (n - 1) as nat;
        lemma_isqrt(m);
        let r = isqrt(m);
        if (r + 1) * (r + 1) <= n {
            assert((r + 1) * (r + 1) == n);
            assert(n < (r + 2) * (r + 2)) by (nonlinear_arith)
                requires (r + 1) * (r + 1) == n;
            assert(is_isqrt(r + 1, n));
        } else {
            assert(is_isqrt(r, n));
        }
    }
}

/// `10^(a + b) = 10^a * 10^b`.
pub proof fn lemma_pow10_add(a: nat, b: nat)
    ensures
        pow10(a + b) == pow10(a) * pow10(b),
    decreases b,
{
    if b > 0 {
        let c = (b - 1) as nat;
        lemma_pow10_add(a, c);
        assert(((a + b) - 1) as nat == a + c);
        assert(pow10(a + b) == 10 * pow10(a + c));
        assert(pow10(b) == 10 * pow10(c));
        let x = pow10(a);
        let y = pow10(c);
        assert(x * (10 * y) == 10 * (x * y)) by (nonlinear_arith);
    } else {
        assert(a + b == a);
        assert(pow10(b) == 1);
    }
}

/// `10^n` is positive.
pub proof fn lemma_pow10_positive(n: nat)
    ensures
        pow10(n) > 0,
    decreases n,
{
    if n > 0 {
        lemma_pow10_positive((n - 1) as nat);
    }
}

/// The integer square root of `x * k^2`, over `k`, is that of `x`.
pub proof fn lemma_isqrt_scaled(x: nat, k: nat, r: nat)
    requires
        k > 0,
        is_isqrt(r, x * k * k),
    ensures
        is_isqrt(r / k, x),
{
    let s = r / k;
    assert(s * k <= r && r < (s + 1) * k) by (nonlinear_arith)
        requires k > 0, s == r / k;
    assert(s * s <= x) by (nonlinear_arith)
        requires k > 0, s * k <= r, r * r <= x * k * k;
    assert(x < (s + 1) * (s + 1)) by (nonlinear_arith)
        requires k > 0, r < (s + 1) * k, x * k * k < (r + 1) * (r + 1);
}

/// The precision is one of `p` down to 0, and the product fits there
/// unless it is 0.
pub proof fn lemma_sqrt_precision(a: nat, p: nat)
    ensures
        sqrt_precision(a, p) <= p,
        sqrt_precision(a, p) == 0 || a * pow10(2 * sqrt_precision(a, p)) < u128_limit(),
    decreases p,
{
    if p > 0 {
        lemma_sqrt_precision(a, (p - 1) as nat);
    }
}

/// `10^18` is the decimals' fraction.
proof fn lemma_pow10_fraction()
    ensures
        pow10(18) == fraction(),
{
    reveal_with_fuel(pow10, 19);
}

/// At a precision `p` of at most 9, `10^18 * 100^p` is the square of
/// `10^(9 + p)`, which times `10^(9 - p)` is `10^18`.
proof fn lemma_sqrt_scales(p: nat)
    requires
        p <= 9,
    ensures
        fraction() * pow10(2 * p) == pow10(9 + p) * pow10(9 + p),
        pow10((9 - p) as nat) * pow10(9 + p) == fraction(),
        pow10(9 + p) > 0,
        pow10((9 - p) as nat) > 0,
{
    lemma_pow10_fraction();
    lemma_pow10_add(18, 2 * p);
    lemma_pow10_add(9 + p, 9 + p);
    lemma_pow10_add((9 - p) as nat, 9 + p);
    assert(18 + 2 * p == (9 + p) + (9 + p));
    assert((9 - p) as nat + (9 + p) == 18);
    lemma_pow10_positive(9 + p);
    lemma_pow10_positive((9 - p) as nat);
}

/// `Decimal::sqrt` of the decimal `x`, rounded down to an integer, is the
/// integer square root of `x`.
pub proof fn lemma_decimal_sqrt_floor(x: nat)
    ensures
        is_isqrt(decimal_sqrt_atomics(x * fraction()) / fraction(), x),
{
    let a = x * fraction();
    let p = sqrt_precision(a, 9);
    lemma_sqrt_precision(a, 9);
    lemma_sqrt_scales(p);
    let k = pow10(9 + p);
    let m = pow10((9 - p) as nat);
    let f = pow10(2 * p);
    let n = a * f;
    assert(n == x * k * k) by (nonlinear_arith)
        requires
            a == x * fraction(),
            n == a * f,
            fraction() * f == k * k;
    let r = isqrt(n);
    lemma_isqrt(n);
    lemma_isqrt_scaled(x, k, r);
    assert(r * m == m * r) by (nonlinear_arith);
    vstd::arithmetic::div_mod::lemma_div_multiples_vanish_quotient(m as int, r as int, k as int);
    assert(m * k == fraction());
    assert((m * r) / (m * k) == r / k);
    assert(decimal_sqrt_atomics(a) == r * m);
    assert(decimal_sqrt_atomics(a) / fraction() == r / k);
}

} // verus!
