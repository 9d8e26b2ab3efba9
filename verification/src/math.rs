//! Fixed-width arithmetic used by the contracts.
//!
//! `Uint256` and `Decimal256` are the 256-bit unsigned integer and the
//! 18-place fixed-point decimal of the liquidation queue; their arithmetic is
//! carried out by `cosmwasm_std::Uint256` and stated here over mathematical
//! naturals. `Decimal` is the 128-bit, 18-place decimal of `cosmwasm_std`,
//! held here by its atomics.
use vstd::prelude::*;

verus! {

/// 2^256: one more than the largest `Uint256`.
pub open spec fn u256_limit() -> nat {
    115792089237316195423570985008687907853269984665640564039457584007913129639936nat
}

/// 2^128: one more than the largest `u128`.
pub open spec fn u128_limit() -> nat {
    340282366920938463463374607431768211456nat
}

/// The number of atomics in one unit of a decimal (10^18).
pub open spec fn fraction() -> nat {
    1_000_000_000_000_000_000nat
}

/// The value of big-endian bytes.
pub open spec fn be_value(bytes: Seq<u8>) -> nat
    decreases bytes.len(),
{
    if bytes.len() == 0 {
        0
    } else {
        be_value(bytes.drop_last()) * 256 + bytes.last() as nat
    }
}

/// 256 to the power `n`.
pub open spec fn pow256(n: nat) -> nat
    decreases n,
{
    if n == 0 { 1 } else { 256 * pow256((n - 1) as nat) }
}

pub proof fn lemma_be_value_bound(bytes: Seq<u8>)
    ensures
        be_value(bytes) < pow256(bytes.len()),
    decreases bytes.len(),
{
    if bytes.len() > 0 {
        lemma_be_value_bound(bytes.drop_last());
        let rest = be_value(bytes.drop_last());
        let p = pow256((bytes.len() - 1) as nat);
        assert(rest * 256 + (bytes.last() as nat) < p * 256) by (nonlinear_arith)
            requires rest < p, bytes.last() < 256;
    }
}

/// An unsigned 256-bit integer, held as its 32 big-endian bytes.
#[derive(Clone, Copy, Debug)]
pub struct Uint256 {
    pub bytes: [u8; 32],
}

impl Uint256 {
    /// The number this value stands for.
    pub open spec fn value(self) -> nat {
        be_value(self.bytes@)
    }

    /// Every value is below 2^256.
    pub proof fn lemma_bound(self)
        ensures
            self.value() < u256_limit(),
    {
        lemma_be_value_bound(self.bytes@);
        reveal_with_fuel(pow256, 33);
        assert(pow256(32) == u256_limit());
    }
}

pub proof fn lemma_be_value_injective(a: Seq<u8>, b: Seq<u8>)
    requires
        a.len() == b.len(),
        be_value(a) == be_value(b),
    ensures
        a == b,
    decreases a.len(),
{
    if a.len() > 0 {
        let x = be_value(a.drop_last());
        let y = be_value(b.drop_last());
        let c = a.last() as nat;
        let d = b.last() as nat;
        assert(c == d && x == y) by (nonlinear_arith)
            requires x * 256 + c == y * 256 + d, c < 256, d < 256;
        lemma_be_value_injective(a.drop_last(), b.drop_last());
        assert(a =~= a.drop_last().push(a.last()));
        assert(b =~= b.drop_last().push(b.last()));
    } else {
        assert(a =~= b);
    }
}

/// The `Uint256` that stands for `n` (where there is one).
pub open spec fn u256_of(n: nat) -> Uint256 {
    choose|u: Uint256| u.value() == n
}

/// A `Uint256` is determined by its value.
pub proof fn lemma_u256_of(x: Uint256)
    ensures
        u256_of(x.value()) == x,
{
    let u = u256_of(x.value());
    assert(u.value() == x.value());
    lemma_be_value_injective(u.bytes@, x.bytes@);
    assert(u.bytes =~= x.bytes);
}

/// `cosmwasm_std::Uint256::from_u128`, read back as big-endian bytes: the
/// result stands for `v`.
#[verifier::external_body]
fn cw_from_u128(v: u128) -> (r: Uint256)
    ensures
        r.value() == v as nat,
{
    Uint256 { bytes: cosmwasm_std::Uint256::from_u128(v).to_be_bytes() }
}

/// `cosmwasm_std::Uint256::checked_add`: the sum, or `None` where it reaches 2^256.
#[verifier::external_body]
fn cw_checked_add(a: Uint256, b: Uint256) -> (r: Option<Uint256>)
    ensures
        r is Some <==> a.value() + b.value() < u256_limit(),
        r matches Some(c) ==> c.value() == a.value() + b.value(),
{
    let x = cosmwasm_std::Uint256::from_be_bytes(a.bytes);
    match x.checked_add(cosmwasm_std::Uint256::from_be_bytes(b.bytes)) {
        Ok(c) => Some(Uint256 { bytes: c.to_be_bytes() }),
        Err(_) => None,
    }
}

/// `cosmwasm_std::Uint256::checked_sub`: the difference, or `None` where `b > a`.
#[verifier::external_body]
fn cw_checked_sub(a: Uint256, b: Uint256) -> (r: Option<Uint256>)
    ensures
        r is Some <==> b.value() <= a.value(),
        r matches Some(c) ==> c.value() == a.value() - b.value(),
{
    let x = cosmwasm_std::Uint256::from_be_bytes(a.bytes);
    match x.checked_sub(cosmwasm_std::Uint256::from_be_bytes(b.bytes)) {
        Ok(c) => Some(Uint256 { bytes: c.to_be_bytes() }),
        Err(_) => None,
    }
}

/// `cosmwasm_std::Uint256::checked_mul`: the product, or `None` where it reaches 2^256.
#[verifier::external_body]
fn cw_checked_mul(a: Uint256, b: Uint256) -> (r: Option<Uint256>)
    ensures
        r is Some <==> a.value() * b.value() < u256_limit(),
        r matches Some(c) ==> c.value() == a.value() * b.value(),
{
    let x = cosmwasm_std::Uint256::from_be_bytes(a.bytes);
    match x.checked_mul(cosmwasm_std::Uint256::from_be_bytes(b.bytes)) {
        Ok(c) => Some(Uint256 { bytes: c.to_be_bytes() }),
        Err(_) => None,
    }
}

/// `cosmwasm_std::Uint256::checked_div`: the floored quotient, or `None` where `b` is zero.
#[verifier::external_body]
fn cw_checked_div(a: Uint256, b: Uint256) -> (r: Option<Uint256>)
    ensures
        r is Some <==> b.value() != 0,
        r matches Some(c) ==> c.value() == a.value() / b.value(),
{
    let x = cosmwasm_std::Uint256::from_be_bytes(a.bytes);
    match x.checked_div(cosmwasm_std::Uint256::from_be_bytes(b.bytes)) {
        Ok(c) => Some(Uint256 { bytes: c.to_be_bytes() }),
        Err(_) => None,
    }
}

/// `<` on `cosmwasm_std::Uint256`: numeric order.
#[verifier::external_body]
fn cw_lt(a: Uint256, b: Uint256) -> (r: bool)
    ensures
        r == (a.value() < b.value()),
{
    cosmwasm_std::Uint256::from_be_bytes(a.bytes) < cosmwasm_std::Uint256::from_be_bytes(b.bytes)
}

/// `Uint128::try_from(Uint256)` of `cosmwasm_std`: the value where it is below 2^128.
#[verifier::external_body]
fn cw_to_u128(a: Uint256) -> (r: Option<u128>)
    ensures
        r is Some <==> a.value() < u128_limit(),
        r matches Some(v) ==> v as nat == a.value(),
{
    match cosmwasm_std::Uint128::try_from(cosmwasm_std::Uint256::from_be_bytes(a.bytes)) {
        Ok(v) => Some(v.u128()),
        Err(_) => None,
    }
}

impl Uint256 {
    pub fn from_u128(v: u128) -> (r: Uint256)
        ensures
            r.value() == v,
    {
        cw_from_u128(v)
    }

    pub fn zero() -> (r: Uint256)
        ensures
            r.value() == 0,
    {
        cw_from_u128(0)
    }

    pub fn one() -> (r: Uint256)
        ensures
            r.value() == 1,
    {
        cw_from_u128(1)
    }

    pub fn checked_add(self, other: Uint256) -> (r: Option<Uint256>)
        ensures
            r is Some <==> self.value() + other.value() < u256_limit(),
            r matches Some(c) ==> c.value() == self.value() + other.value(),
    {
        cw_checked_add(self, other)
    }

    pub fn checked_sub(self, other: Uint256) -> (r: Option<Uint256>)
        ensures
            r is Some <==> other.value() <= self.value(),
            r matches Some(c) ==> c.value() == self.value() - other.value(),
    {
        cw_checked_sub(self, other)
    }

    pub fn checked_mul(self, other: Uint256) -> (r: Option<Uint256>)
        ensures
            r is Some <==> self.value() * other.value() < u256_limit(),
            r matches Some(c) ==> c.value() == self.value() * other.value(),
    {
        cw_checked_mul(self, other)
    }

    pub fn checked_div(self, other: Uint256) -> (r: Option<Uint256>)
        ensures
            r is Some <==> other.value() != 0,
            r matches Some(c) ==> c.value() == self.value() / other.value(),
    {
        cw_checked_div(self, other)
    }

    pub fn lt(&self, other: &Uint256) -> (r: bool)
        ensures
            r == (self.value() < other.value()),
    {
        cw_lt(*self, *other)
    }

    pub fn le(&self, other: &Uint256) -> (r: bool)
        ensures
            r == (self.value() <= other.value()),
    {
        !cw_lt(*other, *self)
    }

    pub fn eq(&self, other: &Uint256) -> (r: bool)
        ensures
            r == (self.value() == other.value()),
    {
        !cw_lt(*self, *other) && !cw_lt(*other, *self)
    }

    pub fn is_zero(&self) -> (r: bool)
        ensures
            r == (self.value() == 0),
    {
        !cw_lt(cw_from_u128(0), *self)
    }

    pub fn to_u128(&self) -> (r: Option<u128>)
        ensures
            r is Some <==> self.value() < u128_limit(),
            r matches Some(v) ==> v as nat == self.value(),
    {
        cw_to_u128(*self)
    }
}

} // verus!
