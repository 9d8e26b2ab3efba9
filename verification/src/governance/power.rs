//! Voting power for governance, from what the staking and vesting contracts
//! report: stake from before a proposal started, capped vesting allocations,
//! and delegations, square-rooted where voting is quadratic.
use vstd::prelude::*;
use crate::math::u128_limit;
use crate::decimal::{dmul, uint_mul_decimal};
use crate::governance::state::{GovError, sqrt_floor, sqrt_ceil, uint_sqrt_floor, uint_sqrt_ceil};

verus! {

/// 19%, the cap of vesting voting power relative to the stake not vesting.
pub const VESTING_CAP: u128 = 190_000_000_000_000_000;

/// A stake deposit as the staking contract reports it.
#[derive(Clone, Copy, Debug)]
pub struct GovStake {
    pub amount: u128,
    pub stake_time: u64,
    pub unstake_start_time: Option<u64>,
}

/// A stake deposit of some staker, as the staking contract lists them.
#[derive(Debug)]
pub struct StakerEntry {
    pub staker: String,
    pub stake: GovStake,
}

/// A vesting allocation.
#[derive(Clone, Copy, Debug)]
pub struct Allocation {
    pub amount: u128,
    pub amount_withdrawn: u128,
}

/// A delegation of voting power.
#[derive(Clone, Copy, Debug)]
pub struct Delegation {
    pub amount: u128,
    pub time_of_delegation: u64,
    pub voting_power_delegation: bool,
}

/// The delegations to and from a user.
#[derive(Debug)]
pub struct DelegationInfo {
    pub user: String,
    pub delegated: Vec<Delegation>,
    pub delegated_to: Vec<Delegation>,
}

/// The stake counts: staked before `start` and not unstaking.
pub open spec fn stake_counts(s: GovStake, start: u64) -> bool {
    s.stake_time < start && s.unstake_start_time is None
}

/// The sum of the stakes that count.
pub open spec fn stake_sum(stakes: Seq<GovStake>, start: u64) -> nat
    decreases stakes.len(),
{
    if stakes.len() == 0 {
        0
    } else {
        stake_sum(stakes.drop_last(), start) + if stake_counts(stakes.last(), start) { stakes.last().amount as nat } else { 0 }
    }
}

/// The voting power of a vesting allocation: what is left of it times the
/// multiplier, at most 19% of the stake not vesting; `None` on an overflow.
pub open spec fn vested_power(a: Allocation, multiplier: u128, non_vested: u128) -> Option<nat> {
    if a.amount < a.amount_withdrawn {
        None
    } else {
        let alloc = dmul((a.amount - a.amount_withdrawn) as nat, multiplier as nat);
        let cap = dmul(non_vested as nat, VESTING_CAP as nat);
        if alloc >= u128_limit() {
            None
        } else if alloc <= cap {
            Some(alloc)
        } else {
            Some(cap)
        }
    }
}

/// The delegation counts: made by `start` and delegating voting power.
pub open spec fn delegation_counts(d: Delegation, start: u64) -> bool {
    d.time_of_delegation <= start && d.voting_power_delegation
}

/// What a delegation weighs: its amount, square-rooted (rounded up) where
/// voting is quadratic.
pub open spec fn delegation_weight(d: Delegation, quadratic: bool) -> Option<nat> {
    if quadratic { sqrt_ceil(d.amount) } else { Some(d.amount as nat) }
}

/// The sum of the weights of the delegations, or `None` where a weight or
/// the sum overflows.
pub open spec fn delegated_sum(ds: Seq<Delegation>, quadratic: bool) -> Option<nat>
    decreases ds.len(),
{
    if ds.len() == 0 {
        Some(0)
    } else {
        match (delegated_sum(ds.drop_last(), quadratic), delegation_weight(ds.last(), quadratic)) {
            (Some(a), Some(w)) => if a + w < u128_limit() { Some(a + w) } else { None },
            _ => None,
        }
    }
}

/// The index of the first delegation info of `user`.
pub open spec fn info_index(infos: Seq<(Seq<char>, Seq<Delegation>, Seq<Delegation>)>, user: Seq<char>) -> Option<int>
    decreases infos.len(),
{
    if infos.len() == 0 {
        None
    } else if let Some(i) = info_index(infos.drop_last(), user) {
        Some(i)
    } else if infos.last().0 == user {
        Some(infos.len() - 1)
    } else {
        None
    }
}

/// The delegation infos as values.
pub open spec fn infos_view(v: Seq<DelegationInfo>) -> Seq<(Seq<char>, Seq<Delegation>, Seq<Delegation>)> {
    v.map_values(|i: DelegationInfo| (i.user@, i.delegated@, i.delegated_to@))
}

/// The voting power of `sender` before quadratic voting and delegations,
/// and whether an expedited proposal stays expedited: the stake that counts,
/// or the capped vesting allocation where a vesting `recipient` is named
/// (who must be the sender). A failed query counts as nothing.
pub open spec fn base_power_spec(
    stakes: Option<Seq<GovStake>>,
    allocation: Option<Allocation>,
    sender: Seq<char>,
    recipient: Option<Seq<char>>,
    start: u64,
    expedited: bool,
    multiplier: u128,
    non_vested: u128,
) -> Result<(nat, bool), GovError> {
    let staked = match stakes { Some(s) => stake_sum(s, start), None => 0 };
    if staked >= u128_limit() {
        Err(GovError::Overflow)
    } else {
        match recipient {
            None => Ok((staked, false)),
            Some(r) => if r != sender {
                Err(GovError::NotRecipient)
            } else {
                match allocation {
                    Some(a) => match vested_power(a, multiplier, non_vested) {
                        Some(v) => Ok((v, expedited)),
                        None => Err(GovError::Overflow),
                    },
                    None => Ok((0nat, false)),
                }
            },
        }
    }
}

/// The power `base`, square-rooted (rounded up) where voting is quadratic,
/// plus what is delegated to `sender` less what they delegated away (not
/// below zero), counting the delegations made by `start`.
pub open spec fn delegated_power_spec(
    base: nat,
    delegations: Seq<(Seq<char>, Seq<Delegation>, Seq<Delegation>)>,
    sender: Seq<char>,
    start: u64,
    quadratic: bool,
) -> Option<nat> {
    let rooted = if quadratic { sqrt_ceil(base as u128) } else { Some(base) };
    match rooted {
        None => None,
        Some(t) => match info_index(delegations, sender) {
            None => Some(t),
            Some(i) => {
                let to = delegated_sum(delegations[i].1.filter(|d: Delegation| delegation_counts(d, start)), quadratic);
                let from = delegated_sum(delegations[i].2.filter(|d: Delegation| delegation_counts(d, start)), quadratic);
                match (to, from) {
                    (Some(a), Some(f)) => if t + a >= u128_limit() {
                        None
                    } else if t + a >= f {
                        Some((t + a - f) as nat)
                    } else {
                        Some(0nat)
                    },
                    _ => None,
                }
            },
        },
    }
}

/// The voting power of `sender` at a proposal that started at `start`, and
/// whether an expedited proposal stays expedited (see `base_power_spec` and
/// `delegated_power_spec`).
pub open spec fn voting_power_spec(
    stakes: Option<Seq<GovStake>>,
    allocation: Option<Allocation>,
    delegations: Option<Seq<(Seq<char>, Seq<Delegation>, Seq<Delegation>)>>,
    sender: Seq<char>,
    recipient: Option<Seq<char>>,
    start: u64,
    expedited: bool,
    quadratic: bool,
    multiplier: u128,
    non_vested: u128,
) -> Result<(nat, bool), GovError> {
    match base_power_spec(stakes, allocation, sender, recipient, start, expedited, multiplier, non_vested) {
        Err(e) => Err(e),
        Ok((b, exp)) => match delegated_power_spec(b, match delegations { Some(d) => d, None => Seq::empty() },
            sender, start, quadratic) {
            Some(p) => Ok((p, exp)),
            None => Err(GovError::Overflow),
        },
    }
}

proof fn lemma_stake_sum_prefix(s: Seq<GovStake>, k: int, start: u64)
    requires
        0 <= k <= s.len(),
    ensures
        stake_sum(s.take(k), start) <= stake_sum(s, start),
    decreases s.len(),
{
    if k < s.len() {
        assert(s.drop_last().take(k) =~= s.take(k));
        lemma_stake_sum_prefix(s.drop_last(), k, start);
    } else {
        assert(s.take(k) =~= s);
    }
}

/// The sum of the stakes that count, where it fits in 128 bits.
fn sum_stakes(stakes: &Vec<GovStake>, start: u64) -> (r: Option<u128>)
    ensures
        match r {
            Some(v) => v as nat == stake_sum(stakes@, start),
            None => stake_sum(stakes@, start) >= u128_limit(),
        },
{
    let mut total: u128 = 0;
    let mut i: usize = 0;
    while i < stakes.len()
        invariant
            i <= stakes.len(),
            total as nat == stake_sum(stakes@.take(i as int), start),
        decreases stakes.len() - i,
    {
        assert(stakes@.take(i + 1).drop_last() =~= stakes@.take(i as int));
        let s = stakes[i];
        if s.stake_time < start && s.unstake_start_time.is_none() {
            total = match total.checked_add(s.amount) {
                Some(t) => t,
                None => {
                    proof { lemma_stake_sum_prefix(stakes@, i + 1, start); }
                    return None;
                },
            };
        }
        i = i + 1;
    }
    assert(stakes@.take(stakes.len() as int) =~= stakes@);
    Some(total)
}

proof fn lemma_delegated_sum_prefix(ds: Seq<Delegation>, k: int, quadratic: bool)
    requires
        0 <= k <= ds.len(),
        delegated_sum(ds.take(k), quadratic) is None,
    ensures
        delegated_sum(ds, quadratic) is None,
    decreases ds.len(),
{
    if k < ds.len() {
        assert(ds.drop_last().take(k) =~= ds.take(k));
        lemma_delegated_sum_prefix(ds.drop_last(), k, quadratic);
    } else {
        assert(ds.take(k) =~= ds);
    }
}

/// The sum of the weights of the delegations that count at `start`.
fn sum_delegations(ds: &Vec<Delegation>, start: u64, quadratic: bool) -> (r: Option<u128>)
    ensures
        match delegated_sum(ds@.filter(|d: Delegation| delegation_counts(d, start)), quadratic) {
            Some(v) => r == Some(v as u128),
            None => r is None,
        },
{
    let ghost pred = |d: Delegation| delegation_counts(d, start);
    let ghost counted = ds@.filter(pred);
    let mut total: u128 = 0;
    let mut i: usize = 0;
    assert(ds@.take(0).filter(pred) =~= Seq::<Delegation>::empty());
    while i < ds.len()
        invariant
            i <= ds.len(),
            pred == (|d: Delegation| delegation_counts(d, start)),
            delegated_sum(ds@.take(i as int).filter(pred), quadratic) == Some(total as nat),
        decreases ds.len() - i,
    {
        proof {
            assert(ds@.take(i + 1) =~= ds@.take(i as int).push(ds@[i as int]));
            ds@.take(i as int).lemma_filter_push(ds@[i as int], pred);
        }
        let d = ds[i];
        if d.time_of_delegation <= start && d.voting_power_delegation {
            let ghost f = ds@.take(i + 1).filter(pred);
            assert(f.drop_last() =~= ds@.take(i as int).filter(pred));
            let w = if quadratic {
                match uint_sqrt_ceil(d.amount) {
                    Some(w) => w,
                    None => {
                        proof { lemma_filter_none(ds@, pred, i as int + 1, quadratic); }
                        return None;
                    },
                }
            } else {
                d.amount
            };
            total = match total.checked_add(w) {
                Some(t) => t,
                None => {
                    proof { lemma_filter_none(ds@, pred, i as int + 1, quadratic); }
                    return None;
                },
            };
        }
        i = i + 1;
    }
    assert(ds@.take(ds.len() as int) =~= ds@);
    Some(total)
}

/// A prefix of the delegations whose counted ones overflow makes all of
/// them overflow.
proof fn lemma_filter_none(ds: Seq<Delegation>, pred: spec_fn(Delegation) -> bool, k: int, quadratic: bool)
    requires
        0 <= k <= ds.len(),
        delegated_sum(ds.take(k).filter(pred), quadratic) is None,
    ensures
        delegated_sum(ds.filter(pred), quadratic) is None,
    decreases ds.len() - k,
{
    if k < ds.len() {
        assert(ds.take(k + 1) =~= ds.take(k).push(ds[k]));
        ds.take(k).lemma_filter_push(ds[k], pred);
        if pred(ds[k]) {
            let f = ds.take(k + 1).filter(pred);
            assert(f.drop_last() =~= ds.take(k).filter(pred));
        }
        lemma_filter_none(ds, pred, k + 1, quadratic);
    } else {
        assert(ds.take(k) =~= ds);
    }
}

/// The index of the first delegation info of `user`.
fn find_info(infos: &Vec<DelegationInfo>, user: &String) -> (r: Option<usize>)
    ensures
        match r {
            Some(k) => info_index(infos_view(infos@), user@) == Some(k as int),
            None => info_index(infos_view(infos@), user@) is None,
        },
{
    let ghost ds = infos_view(infos@);
    let mut i: usize = 0;
    while i < infos.len()
        invariant
            i <= infos.len(),
            ds == infos_view(infos@),
            info_index(ds.take(i as int), user@) is None,
        decreases infos.len() - i,
    {
        assert(ds.take(i + 1).drop_last() =~= ds.take(i as int));
        assert(ds.take(i + 1).last() == ds[i as int]);
        if infos[i].user == *user {
            proof { lemma_info_index_prefix(ds, user@, i as int); }
            return Some(i);
        }
        i = i + 1;
    }
    assert(ds.take(infos.len() as int) =~= ds);
    None
}

/// The power before quadratic voting and delegations (see `base_power_spec`).
fn base_power(
    stakes: &Option<Vec<GovStake>>,
    allocation: Option<Allocation>,
    sender: &String,
    recipient: &Option<String>,
    start_time: u64,
    expedited: bool,
    multiplier: u128,
    non_vested_total: u128,
) -> (r: Result<(u128, bool), GovError>)
    ensures
        match base_power_spec(match stakes { Some(s) => Some(s@), None => None }, allocation, sender@,
            match recipient { Some(x) => Some(x@), None => None }, start_time, expedited, multiplier, non_vested_total) {
            Ok((p, e)) => r == Ok::<(u128, bool), GovError>((p as u128, e)) && p < u128_limit(),
            Err(e) => r matches Err(x) && x == e,
        },
{
    let staked = match stakes {
        Some(s) => match sum_stakes(s, start_time) {
            Some(t) => t,
            None => return Err(GovError::Overflow),
        },
        None => 0,
    };
    match recipient {
        None => Ok((staked, false)),
        Some(r) => {
            if *sender != *r {
                return Err(GovError::NotRecipient);
            }
            match allocation {
                Some(a) => {
                    if a.amount < a.amount_withdrawn {
                        return Err(GovError::Overflow);
                    }
                    let alloc = match uint_mul_decimal(a.amount - a.amount_withdrawn, multiplier) {
                        Some(v) => v,
                        None => return Err(GovError::Overflow),
                    };
                    proof {
                        assert(dmul(non_vested_total as nat, VESTING_CAP as nat) <= non_vested_total as nat) by (nonlinear_arith)
                            requires
                                dmul(non_vested_total as nat, VESTING_CAP as nat)
                                    == (non_vested_total as nat * 190_000_000_000_000_000nat) / 1_000_000_000_000_000_000nat;
                    }
                    let cap = match uint_mul_decimal(non_vested_total, VESTING_CAP) {
                        Some(v) => v,
                        None => return Err(GovError::Overflow),
                    };
                    Ok((if alloc <= cap { alloc } else { cap }, expedited))
                },
                None => Ok((0, false)),
            }
        },
    }
}

/// The voting power of `sender` (see `voting_power_spec`): with the
/// stakes, the vesting allocation and the delegations as queried (`None`
/// where a query failed). Answers the power and whether the proposal may
/// stay expedited.
pub fn calc_voting_power(
    stakes: &Option<Vec<GovStake>>,
    allocation: Option<Allocation>,
    delegations: &Option<Vec<DelegationInfo>>,
    sender: &String,
    recipient: &Option<String>,
    start_time: u64,
    expedited: bool,
    quadratic_voting: bool,
    vesting_voting_power_multiplier: u128,
    non_vested_total: u128,
) -> (r: Result<(u128, bool), GovError>)
    ensures
        match voting_power_spec(
            match stakes { Some(s) => Some(s@), None => None },
            allocation,
            match delegations { Some(d) => Some(infos_view(d@)), None => None },
            sender@,
            match recipient { Some(x) => Some(x@), None => None },
            start_time, expedited, quadratic_voting, vesting_voting_power_multiplier, non_vested_total) {
            Ok((p, e)) => r == Ok::<(u128, bool), GovError>((p as u128, e)),
            Err(e) => r matches Err(x) && x == e,
        },
{
    let (base, exp) = base_power(stakes, allocation, sender, recipient, start_time, expedited,
        vesting_voting_power_multiplier, non_vested_total)?;
    match delegated_power(base, delegations, sender, start_time, quadratic_voting) {
        Some(p) => Ok((p, exp)),
        None => Err(GovError::Overflow),
    }
}

/// The power `base` with quadratic voting and delegations applied (see
/// `delegated_power_spec`).
fn delegated_power(base: u128, delegations: &Option<Vec<DelegationInfo>>, sender: &String, start_time: u64,
    quadratic_voting: bool) -> (r: Option<u128>)
    ensures
        match delegated_power_spec(base as nat, match delegations { Some(d) => infos_view(d@), None => Seq::empty() },
            sender@, start_time, quadratic_voting) {
            Some(p) => r == Some(p as u128),
            None => r is None,
        },
{
    let mut total: u128 = if quadratic_voting {
        uint_sqrt_ceil(base)?
    } else {
        base
    };
    let ghost ds = match delegations { Some(d) => infos_view(d@), None => Seq::empty() };
    match delegations {
        Some(infos) => {
            if let Some(k) = find_info(infos, sender) {
                proof { lemma_info_index_bound(ds, sender@); }
                assert(ds[k as int] == (infos@[k as int].user@, infos@[k as int].delegated@, infos@[k as int].delegated_to@));
                let to = sum_delegations(&infos[k].delegated, start_time, quadratic_voting)?;
                let from = sum_delegations(&infos[k].delegated_to, start_time, quadratic_voting)?;
                total = total.checked_add(to)?;
                total = if total >= from { total - from } else { 0 };
            }
        },
        None => {
            assert(info_index(ds, sender@) is None);
        },
    }
    Some(total)
}

proof fn lemma_info_index_prefix(infos: Seq<(Seq<char>, Seq<Delegation>, Seq<Delegation>)>, user: Seq<char>, i: int)
    requires
        0 <= i < infos.len(),
        info_index(infos.take(i), user) is None,
        infos[i].0 == user,
    ensures
        info_index(infos, user) == Some(i),
    decreases infos.len(),
{
    if i < infos.len() - 1 {
        assert(infos.drop_last().take(i) =~= infos.take(i));
        lemma_info_index_prefix(infos.drop_last(), user, i);
        assert(infos.drop_last()[i] == infos[i]);
    } else {
        assert(infos.drop_last() =~= infos.take(i));
    }
}

proof fn lemma_info_index_bound(infos: Seq<(Seq<char>, Seq<Delegation>, Seq<Delegation>)>, user: Seq<char>)
    ensures
        info_index(infos, user) matches Some(i) ==> 0 <= i < infos.len(),
    decreases infos.len(),
{
    if infos.len() > 0 {
        lemma_info_index_bound(infos.drop_last(), user);
    }
}


/// The stakers' entries as (staker, stake) pairs.
pub open spec fn staker_entries(v: Seq<StakerEntry>) -> Seq<(Seq<char>, GovStake)> {
    v.map_values(|e: StakerEntry| (e.staker@, e.stake))
}

/// The stakes of `who` among the entries.
pub open spec fn stakes_of(entries: Seq<(Seq<char>, GovStake)>, who: Seq<char>) -> Seq<GovStake> {
    entries.filter(of_staker(who)).map_values(stake_part())
}

/// Whether an entry is of staker `who`.
pub open spec fn of_staker(who: Seq<char>) -> spec_fn((Seq<char>, GovStake)) -> bool {
    |e: (Seq<char>, GovStake)| e.0 == who
}

/// The stake of an entry.
pub open spec fn stake_part() -> spec_fn((Seq<char>, GovStake)) -> GovStake {
    |e: (Seq<char>, GovStake)| e.1
}

/// Entry `k` is the first of its staker.
pub open spec fn first_of_staker(entries: Seq<(Seq<char>, GovStake)>, k: int) -> bool {
    forall|j: int| 0 <= j < k ==> #[trigger] entries[j].0 != entries[k].0
}

/// What each entry adds to the total voting power: for the first entry of
/// a staker, the sum of their stakes that count, square-rooted (rounded up)
/// where voting is quadratic; nothing for the others. `None` on an overflow.
pub open spec fn staker_term(entries: Seq<(Seq<char>, GovStake)>, k: int, start: u64, quadratic: bool) -> Option<nat> {
    if first_of_staker(entries, k) {
        let s = stake_sum(stakes_of(entries, entries[k].0), start);
        if s >= u128_limit() { None } else if quadratic { sqrt_ceil(s as u128) } else { Some(s) }
    } else {
        Some(0)
    }
}

/// What a vesting recipient adds: the capped allocation, square-rooted
/// (rounded down) where voting is quadratic.
pub open spec fn recipient_term(a: Option<Allocation>, multiplier: u128, non_vested: u128, quadratic: bool) -> Option<nat> {
    match a {
        None => Some(0),
        Some(a) => match vested_power(a, multiplier, non_vested) {
            None => None,
            Some(v) => if quadratic { sqrt_floor(v as u128) } else { Some(v) },
        },
    }
}

/// The sum of the terms, or `None` where one is `None` or a partial sum
/// overflows.
pub open spec fn terms_sum(terms: Seq<Option<nat>>) -> Option<nat>
    decreases terms.len(),
{
    if terms.len() == 0 {
        Some(0)
    } else {
        match (terms_sum(terms.drop_last()), terms.last()) {
            (Some(a), Some(t)) => if a + t < u128_limit() { Some(a + t) } else { None },
            _ => None,
        }
    }
}

/// The total voting power at a proposal that started at `start`: the terms
/// of the stakers, then of the vesting recipients.
pub open spec fn total_power_spec(entries: Seq<(Seq<char>, GovStake)>, recipients: Seq<Option<Allocation>>,
    non_vested: u128, start: u64, quadratic: bool, multiplier: u128) -> Option<nat> {
    terms_sum(Seq::new(entries.len(), |k: int| staker_term(entries, k, start, quadratic))
        + recipients.map_values(|a: Option<Allocation>| recipient_term(a, multiplier, non_vested, quadratic)))
}

proof fn lemma_terms_sum_prefix(terms: Seq<Option<nat>>, k: int)
    requires
        0 <= k <= terms.len(),
        terms_sum(terms.take(k)) is None,
    ensures
        terms_sum(terms) is None,
    decreases terms.len(),
{
    if k < terms.len() {
        assert(terms.drop_last().take(k) =~= terms.take(k));
        lemma_terms_sum_prefix(terms.drop_last(), k);
    } else {
        assert(terms.take(k) =~= terms);
    }
}

/// The sum of the stakes of `who` that count at `start`.
fn staker_total(stakers: &Vec<StakerEntry>, who: &String, start: u64) -> (r: Option<u128>)
    ensures
        ({
            let s = stake_sum(stakes_of(staker_entries(stakers@), who@), start);
            match r {
                Some(v) => v as nat == s,
                None => s >= u128_limit(),
            }
        }),
{
    let ghost es = staker_entries(stakers@);
    let ghost pred = |e: (Seq<char>, GovStake)| e.0 == who@;
    let mut total: u128 = 0;
    let mut i: usize = 0;
    assert(es.take(0).filter(pred) =~= Seq::<(Seq<char>, GovStake)>::empty());
    while i < stakers.len()
        invariant
            i <= stakers.len(),
            es == staker_entries(stakers@),
            pred == (|e: (Seq<char>, GovStake)| e.0 == who@),
            total as nat == stake_sum(es.take(i as int).filter(pred).map_values(|e: (Seq<char>, GovStake)| e.1), start),
        decreases stakers.len() - i,
    {
        proof {
            assert(es.take(i + 1) =~= es.take(i as int).push(es[i as int]));
            es.take(i as int).lemma_filter_push(es[i as int], pred);
        }
        let ghost before = es.take(i as int).filter(pred).map_values(|e: (Seq<char>, GovStake)| e.1);
        let ghost after = es.take(i + 1).filter(pred).map_values(|e: (Seq<char>, GovStake)| e.1);
        if stakers[i].staker == *who {
            assert(after.drop_last() =~= before);
            assert(after.last() == stakers@[i as int].stake);
            let s = stakers[i].stake;
            if s.stake_time < start && s.unstake_start_time.is_none() {
                total = match total.checked_add(s.amount) {
                    Some(t) => t,
                    None => {
                        proof { lemma_stake_sum_filter_prefix(es, pred, i as int + 1, start); }
                        return None;
                    },
                };
            }
        } else {
            assert(after =~= before);
        }
        i = i + 1;
    }
    assert(es.take(stakers.len() as int) =~= es);
    Some(total)
}

proof fn lemma_stake_sum_filter_prefix(es: Seq<(Seq<char>, GovStake)>, pred: spec_fn((Seq<char>, GovStake)) -> bool, k: int, start: u64)
    requires
        0 <= k <= es.len(),
    ensures
        stake_sum(es.take(k).filter(pred).map_values(|e: (Seq<char>, GovStake)| e.1), start)
            <= stake_sum(es.filter(pred).map_values(|e: (Seq<char>, GovStake)| e.1), start),
    decreases es.len() - k,
{
    if k < es.len() {
        assert(es.take(k + 1) =~= es.take(k).push(es[k]));
        es.take(k).lemma_filter_push(es[k], pred);
        let before = es.take(k).filter(pred).map_values(|e: (Seq<char>, GovStake)| e.1);
        let after = es.take(k + 1).filter(pred).map_values(|e: (Seq<char>, GovStake)| e.1);
        if pred(es[k]) {
            assert(after.drop_last() =~= before);
        } else {
            assert(after =~= before);
        }
        lemma_stake_sum_filter_prefix(es, pred, k + 1, start);
    } else {
        assert(es.take(k) =~= es);
    }
}

/// Whether entry `k` is the first of its staker.
fn is_first_of_staker(stakers: &Vec<StakerEntry>, k: usize) -> (r: bool)
    requires
        k < stakers.len(),
    ensures
        r == first_of_staker(staker_entries(stakers@), k as int),
{
    let ghost es = staker_entries(stakers@);
    let mut j: usize = 0;
    while j < k
        invariant
            j <= k < stakers.len(),
            es == staker_entries(stakers@),
            forall|m: int| 0 <= m < j ==> #[trigger] es[m].0 != es[k as int].0,
        decreases k - j,
    {
        if stakers[j].staker == stakers[k].staker {
            assert(es[j as int].0 == es[k as int].0);
            return false;
        }
        j = j + 1;
    }
    true
}

/// The total voting power at a proposal that started at `start_time` (see
/// `total_power_spec`), from the staked list and the vesting recipients'
/// allocations as queried.
pub fn calc_total_voting_power_at(
    stakers: &Vec<StakerEntry>,
    recipients: &Vec<Option<Allocation>>,
    non_vested_total: u128,
    start_time: u64,
    quadratic_voting: bool,
    vesting_voting_power_multiplier: u128,
) -> (r: Result<u128, GovError>)
    ensures
        match total_power_spec(staker_entries(stakers@), recipients@, non_vested_total, start_time, quadratic_voting,
            vesting_voting_power_multiplier) {
            Some(t) => r == Ok::<u128, GovError>(t as u128),
            None => r matches Err(GovError::Overflow),
        },
{
    let ghost es = staker_entries(stakers@);
    let ghost st = Seq::new(es.len(), |k: int| staker_term(es, k, start_time, quadratic_voting));
    let ghost rt = recipients@.map_values(|a: Option<Allocation>| recipient_term(a, vesting_voting_power_multiplier,
        non_vested_total, quadratic_voting));
    let ghost terms = st + rt;
    let mut total: u128 = 0;
    let mut k: usize = 0;
    assert(terms.take(0) =~= Seq::<Option<nat>>::empty());
    while k < stakers.len()
        invariant
            k <= stakers.len(),
            es == staker_entries(stakers@),
            st == Seq::new(es.len(), |k: int| staker_term(es, k, start_time, quadratic_voting)),
            terms == st + rt,
            terms_sum(terms) == total_power_spec(staker_entries(stakers@), recipients@, non_vested_total, start_time,
                quadratic_voting, vesting_voting_power_multiplier),
            terms_sum(terms.take(k as int)) == Some(total as nat),
        decreases stakers.len() - k,
    {
        assert(terms.take(k + 1).drop_last() =~= terms.take(k as int));
        assert(terms.take(k + 1).last() == st[k as int]);
        let term: u128 = if is_first_of_staker(stakers, k) {
            let s = match staker_total(stakers, &stakers[k].staker, start_time) {
                Some(s) => s,
                None => {
                    proof { lemma_terms_sum_prefix(terms, k + 1); }
                    return Err(GovError::Overflow);
                },
            };
            if quadratic_voting {
                match uint_sqrt_ceil(s) {
                    Some(v) => v,
                    None => {
                        proof { lemma_terms_sum_prefix(terms, k + 1); }
                        return Err(GovError::Overflow);
                    },
                }
            } else {
                s
            }
        } else {
            0
        };
        total = match total.checked_add(term) {
            Some(t) => t,
            None => {
                proof { lemma_terms_sum_prefix(terms, k + 1); }
                return Err(GovError::Overflow);
            },
        };
        k = k + 1;
    }
    let mut m: usize = 0;
    while m < recipients.len()
        invariant
            m <= recipients.len(),
            k == stakers.len(),
            es == staker_entries(stakers@),
            st.len() == stakers.len(),
            rt == recipients@.map_values(|a: Option<Allocation>| recipient_term(a, vesting_voting_power_multiplier,
                non_vested_total, quadratic_voting)),
            terms == st + rt,
            terms_sum(terms) == total_power_spec(staker_entries(stakers@), recipients@, non_vested_total, start_time,
                quadratic_voting, vesting_voting_power_multiplier),
            terms_sum(terms.take(k + m)) == Some(total as nat),
        decreases recipients.len() - m,
    {
        assert(terms.take(k + m + 1).drop_last() =~= terms.take(k + m));
        assert(terms.take(k + m + 1).last() == rt[m as int]);
        let term: u128 = match recipients[m] {
            None => 0,
            Some(a) => {
                let v = match base_vested(a, vesting_voting_power_multiplier, non_vested_total) {
                    Some(v) => v,
                    None => {
                        proof { lemma_terms_sum_prefix(terms, k + m + 1); }
                        return Err(GovError::Overflow);
                    },
                };
                if quadratic_voting {
                    match uint_sqrt_floor(v) {
                        Some(x) => x,
                        None => {
                            proof { lemma_terms_sum_prefix(terms, k + m + 1); }
                            return Err(GovError::Overflow);
                        },
                    }
                } else {
                    v
                }
            },
        };
        total = match total.checked_add(term) {
            Some(t) => t,
            None => {
                proof { lemma_terms_sum_prefix(terms, k + m + 1); }
                return Err(GovError::Overflow);
            },
        };
        m = m + 1;
    }
    assert(terms.take(k + m) =~= terms);
    Ok(total)
}

/// The capped vesting power of an allocation (see `vested_power`).
fn base_vested(a: Allocation, multiplier: u128, non_vested_total: u128) -> (r: Option<u128>)
    ensures
        match vested_power(a, multiplier, non_vested_total) {
            Some(v) => r == Some(v as u128) && v < u128_limit(),
            None => r is None,
        },
{
    if a.amount < a.amount_withdrawn {
        return None;
    }
    let alloc = uint_mul_decimal(a.amount - a.amount_withdrawn, multiplier)?;
    proof {
        assert(dmul(non_vested_total as nat, VESTING_CAP as nat) <= non_vested_total as nat) by (nonlinear_arith)
            requires
                dmul(non_vested_total as nat, VESTING_CAP as nat)
                    == (non_vested_total as nat * 190_000_000_000_000_000nat) / 1_000_000_000_000_000_000nat;
    }
    let cap = uint_mul_decimal(non_vested_total, VESTING_CAP)?;
    Some(if alloc <= cap { alloc } else { cap })
}

} // verus!
