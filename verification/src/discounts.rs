//! System discounts: the value a user holds in the system (staked MBRN with
//! its rewards, and Stability Pool deposits), from which discounts follow.
use vstd::prelude::*;
use crate::math::{fraction, u128_limit};
use crate::decimal::{dmul, decimal_checked_mul, decimal_from_ratio};

verus! {

/// The configuration.
#[derive(Debug)]
pub struct Config {
    pub owner: String,
    pub mbrn_denom: String,
    pub positions_contract: String,
    pub oracle_contract: String,
    pub staking_contract: String,
    pub stability_pool_contract: String,
    pub gauge_vault_contract: String,
    pub discount_vault_contract: String,
}

/// The contract.
pub struct Discounts {
    pub config: Config,
}

/// Why an operation of the discounts contract was refused.
#[derive(Debug)]
pub enum DiscountsError {
    Unauthorized,
    /// An amount or a value did not fit its integer type.
    Overflow,
}

/// A reward the user can claim: its amount and the price of its asset (a
/// decimal by its atomics).
#[derive(Debug)]
pub struct Claimable {
    pub amount: u128,
    pub price: u128,
}

/// The value of `amount` at `price`: the decimal `amount` times the price,
/// as decimal atomics; `None` where a decimal does not fit.
pub open spec fn valued(amount: u128, price: u128) -> Option<nat> {
    let d = amount as nat * fraction();
    if d >= u128_limit() || dmul(price as nat, d) >= u128_limit() { None } else { Some(dmul(price as nat, d)) }
}

/// The sum of the claimables' values; `None` where a value or a partial
/// sum does not fit.
pub open spec fn claimables_value(c: Seq<Claimable>) -> Option<nat>
    decreases c.len(),
{
    if c.len() == 0 {
        Some(0)
    } else {
        match claimables_value(c.drop_last()) {
            None => None,
            Some(s) => match valued(c.last().amount, c.last().price) {
                None => None,
                Some(v) => if s + v >= u128_limit() { None } else { Some(s + v) },
            },
        }
    }
}

/// The value staked: the claimable rewards, then the stake with its accrued
/// interest at the MBRN price.
pub open spec fn staked_value(total_staked: u128, accrued_interest: u128, claimables: Seq<Claimable>, mbrn_price: u128) -> Option<nat> {
    if total_staked + accrued_interest >= u128_limit() {
        None
    } else {
        match claimables_value(claimables) {
            None => None,
            Some(c) => match valued((total_staked + accrued_interest) as u128, mbrn_price) {
                None => None,
                Some(m) => if c + m >= u128_limit() { None } else { Some(c + m) },
            },
        }
    }
}

/// The sum of the deposits; `None` where it does not fit.
pub open spec fn deposits_sum(d: Seq<u128>) -> Option<nat>
    decreases d.len(),
{
    if d.len() == 0 {
        Some(0)
    } else {
        match deposits_sum(d.drop_last()) {
            None => None,
            Some(s) => if s + d.last() >= u128_limit() { None } else { Some(s + d.last() as nat) },
        }
    }
}

/// The value of `amount` at `price` (see `valued`).
fn value_of(amount: u128, price: u128) -> (r: Option<u128>)
    ensures
        match valued(amount, price) {
            Some(v) => r == Some(v as u128),
            None => r is None,
        },
{
    let d = decimal_from_ratio(amount, 1)?;
    assert(d as nat == amount as nat * fraction()) by {
        assert((amount as nat * fraction()) / 1 == amount as nat * fraction());
    }
    decimal_checked_mul(price, d)
}

/// The value of the MBRN `user` has staked, with its accrued interest, and
/// of their claimable rewards (see `staked_value`), as decimal atomics.
pub fn get_staked_MBRN_value(total_staked: u128, accrued_interest: u128, claimables: &Vec<Claimable>, mbrn_price: u128)
    -> (r: Result<u128, DiscountsError>)
    ensures
        match staked_value(total_staked, accrued_interest, claimables@, mbrn_price) {
            Some(v) => r == Ok::<u128, DiscountsError>(v as u128),
            None => r matches Err(DiscountsError::Overflow),
        },
{
    let stake = match total_staked.checked_add(accrued_interest) {
        Some(s) => s,
        None => return Err(DiscountsError::Overflow),
    };
    let mut total: u128 = 0;
    let mut i: usize = 0;
    while i < claimables.len()
        invariant
            i <= claimables.len(),
            claimables_value(claimables@.take(i as int)) == Some(total as nat),
        decreases claimables.len() - i,
    {
        assert(claimables@.take(i + 1).drop_last() =~= claimables@.take(i as int));
        assert(claimables@.take(i + 1).last() == claimables@[i as int]);
        let v = match value_of(claimables[i].amount, claimables[i].price) {
            Some(v) => v,
            None => {
                proof { lemma_claimables_prefix(claimables@, i + 1); }
                return Err(DiscountsError::Overflow);
            },
        };
        total = match total.checked_add(v) {
            Some(t) => t,
            None => {
                proof { lemma_claimables_prefix(claimables@, i + 1); }
                return Err(DiscountsError::Overflow);
            },
        };
        i = i + 1;
    }
    assert(claimables@.take(claimables.len() as int) =~= claimables@);
    let m = match value_of(stake, mbrn_price) {
        Some(m) => m,
        None => return Err(DiscountsError::Overflow),
    };
    match total.checked_add(m) {
        Some(t) => Ok(t),
        None => Err(DiscountsError::Overflow),
    }
}

proof fn lemma_claimables_prefix(c: Seq<Claimable>, k: int)
    requires
        0 <= k <= c.len(),
        claimables_value(c.take(k)) is None,
    ensures
        claimables_value(c) is None,
    decreases c.len() - k,
{
    if k < c.len() {
        assert(c.take(k + 1).drop_last() =~= c.take(k));
        lemma_claimables_prefix(c, k + 1);
    } else {
        assert(c.take(k) =~= c);
    }
}

/// The user's Stability Pool funds: the sum of their deposits (decimals by
/// their atomics).
pub fn get_sp_funds(deposits: &Vec<u128>) -> (r: Result<u128, DiscountsError>)
    ensures
        match deposits_sum(deposits@) {
            Some(s) => r == Ok::<u128, DiscountsError>(s as u128),
            None => r matches Err(DiscountsError::Overflow),
        },
{
    let mut total: u128 = 0;
    let mut i: usize = 0;
    while i < deposits.len()
        invariant
            i <= deposits.len(),
            deposits_sum(deposits@.take(i as int)) == Some(total as nat),
        decreases deposits.len() - i,
    {
        assert(deposits@.take(i + 1).drop_last() =~= deposits@.take(i as int));
        assert(deposits@.take(i + 1).last() == deposits@[i as int]);
        total = match total.checked_add(deposits[i]) {
            Some(t) => t,
            None => {
                proof { lemma_deposits_prefix(deposits@, i + 1); }
                return Err(DiscountsError::Overflow);
            },
        };
        i = i + 1;
    }
    assert(deposits@.take(deposits.len() as int) =~= deposits@);
    Ok(total)
}

proof fn lemma_deposits_prefix(d: Seq<u128>, k: int)
    requires
        0 <= k <= d.len(),
        deposits_sum(d.take(k)) is None,
    ensures
        deposits_sum(d) is None,
    decreases d.len() - k,
{
    if k < d.len() {
        assert(d.take(k + 1).drop_last() =~= d.take(k));
        lemma_deposits_prefix(d, k + 1);
    } else {
        assert(d.take(k) =~= d);
    }
}

/// The new address where one is given, else the old.
fn or_old(new: Option<String>, old: &String) -> (r: String)
    ensures
        r == (match new { Some(x) => x, None => *old }),
{
    match new {
        Some(x) => x,
        None => old.clone(),
    }
}

impl Discounts {
    /// A new discounts contract owned by `owner` (else the sender), with the
    /// MBRN denom as the staking contract reports it.
    pub fn instantiate(owner: Option<String>, sender: String, mbrn_denom: String, positions_contract: String,
        oracle_contract: String, staking_contract: String, stability_pool_contract: String,
        gauge_vault_contract: String, discount_vault_contract: String) -> (r: Discounts)
        ensures
            r.config == (Config {
                owner: match owner { Some(o) => o, None => sender },
                mbrn_denom, positions_contract, oracle_contract, staking_contract, stability_pool_contract,
                gauge_vault_contract, discount_vault_contract,
            }),
    {
        Discounts {
            config: Config {
                owner: match owner { Some(o) => o, None => sender },
                mbrn_denom,
                positions_contract,
                oracle_contract,
                staking_contract,
                stability_pool_contract,
                gauge_vault_contract,
                discount_vault_contract,
            },
        }
    }

    /// Update the addresses in the configuration; only the owner may.
    pub fn update_config(&mut self, sender: &String, owner: Option<String>, oracle_contract: Option<String>,
        positions_contract: Option<String>, staking_contract: Option<String>, stability_pool_contract: Option<String>,
        gauge_vault_contract: Option<String>, discount_vault_contract: Option<String>) -> (r: Result<(), DiscountsError>)
        ensures
            sender@ != old(self).config.owner@ ==> (r matches Err(DiscountsError::Unauthorized)
                && final(self).config == old(self).config),
            sender@ == old(self).config.owner@ ==> r is Ok && final(self).config == (Config {
                owner: match owner { Some(x) => x, None => old(self).config.owner },
                mbrn_denom: old(self).config.mbrn_denom,
                positions_contract: match positions_contract { Some(x) => x, None => old(self).config.positions_contract },
                oracle_contract: match oracle_contract { Some(x) => x, None => old(self).config.oracle_contract },
                staking_contract: match staking_contract { Some(x) => x, None => old(self).config.staking_contract },
                stability_pool_contract: match stability_pool_contract {
                    Some(x) => x,
                    None => old(self).config.stability_pool_contract,
                },
                gauge_vault_contract: match gauge_vault_contract { Some(x) => x, None => old(self).config.gauge_vault_contract },
                discount_vault_contract: match discount_vault_contract {
                    Some(x) => x,
                    None => old(self).config.discount_vault_contract,
                },
            }),
    {
        if *sender != self.config.owner {
            return Err(DiscountsError::Unauthorized);
        }
        let c = &self.config;
        let updated = Config {
            owner: or_old(owner, &c.owner),
            mbrn_denom: c.mbrn_denom.clone(),
            positions_contract: or_old(positions_contract, &c.positions_contract),
            oracle_contract: or_old(oracle_contract, &c.oracle_contract),
            staking_contract: or_old(staking_contract, &c.staking_contract),
            stability_pool_contract: or_old(stability_pool_contract, &c.stability_pool_contract),
            gauge_vault_contract: or_old(gauge_vault_contract, &c.gauge_vault_contract),
            discount_vault_contract: or_old(discount_vault_contract, &c.discount_vault_contract),
        };
        self.config = updated;
        Ok(())
    }
}

} // verus!
