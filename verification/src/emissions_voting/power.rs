//! Voting power: deposits locked in the LTV-disco vault and stakes, each
//! weighted by one plus the days it stays locked.
use vstd::prelude::*;
use crate::math::u128_limit;
use crate::emissions_voting::state::{VotingError, SECONDS_PER_DAY};

verus! {

/// A lock on a deposit: until a time, or perpetually for a number of days.
#[derive(Clone, Copy, Debug)]
pub struct Locked {
    pub locked_until: u64,
    pub perpetual_lock: Option<u64>,
}

/// A deposit locked in the LTV-disco vault: its vault tokens and lock.
#[derive(Clone, Copy, Debug)]
pub struct LockedDeposit {
    pub vault_tokens: u128,
    pub locked: Option<Locked>,
}

/// A stake: its amount, its lock, and when it started unstaking, if it did.
#[derive(Clone, Copy, Debug)]
pub struct StakeDeposit {
    pub amount: u128,
    pub locked: Option<Locked>,
    pub unstake_start_time: Option<u64>,
}

/// One plus the days a deposit stays locked at time `now`: the perpetual
/// days where there are, else the whole days left until the lock ends.
pub open spec fn lock_multiplier(locked: Option<Locked>, now: u64) -> nat {
    match locked {
        Some(l) => match l.perpetual_lock {
            Some(d) => d as nat + 1,
            None => if l.locked_until > now {
                ((l.locked_until - now) as nat / SECONDS_PER_DAY as nat) + 1
            } else {
                1
            },
        },
        None => 1,
    }
}

/// The lock multiplier of a deposit (see `lock_multiplier`).
pub fn calculate_lock_multiplier(locked: &Option<Locked>, current_time: u64) -> (r: u64)
    requires
        lock_multiplier(*locked, current_time) <= u64::MAX,
    ensures
        r == lock_multiplier(*locked, current_time),
{
    match locked {
        Some(lock) => {
            if let Some(perpetual_days) = lock.perpetual_lock {
                perpetual_days + 1
            } else if lock.locked_until > current_time {
                let remaining_seconds = lock.locked_until - current_time;
                let remaining_days = remaining_seconds / SECONDS_PER_DAY;
                remaining_days + 1
            } else {
                1
            }
        },
        None => 1,
    }
}

/// The amounts that count, with their locks: the disco deposits, then the
/// stakes that are not unstaking.
pub open spec fn power_terms(disco: Seq<LockedDeposit>, stakes: Seq<StakeDeposit>) -> Seq<(u128, Option<Locked>)> {
    disco.map_values(|d: LockedDeposit| (d.vault_tokens, d.locked))
        + stakes.filter(|s: StakeDeposit| s.unstake_start_time is None).map_values(|s: StakeDeposit| (s.amount, s.locked))
}

/// A term whose multiplier or weighted amount does not fit its integer.
pub open spec fn term_overflows(t: (u128, Option<Locked>), now: u64) -> bool {
    lock_multiplier(t.1, now) > u64::MAX || t.0 as nat * lock_multiplier(t.1, now) >= u128_limit()
}

/// The sum of the weighted amounts of the terms.
pub open spec fn weighted_total(terms: Seq<(u128, Option<Locked>)>, now: u64) -> nat
    decreases terms.len(),
{
    if terms.len() == 0 {
        0
    } else {
        weighted_total(terms.drop_last(), now) + terms.last().0 as nat * lock_multiplier(terms.last().1, now)
    }
}

/// The voting power of the deposits at time `now`, or `None` where an amount
/// overflows (a failed query of either contract counts as no deposits).
pub open spec fn voting_power_of(disco: Seq<LockedDeposit>, stakes: Seq<StakeDeposit>, now: u64) -> Option<nat> {
    let terms = power_terms(disco, stakes);
    if (exists|k: int| 0 <= k < terms.len() && term_overflows(#[trigger] terms[k], now))
        || weighted_total(terms, now) >= u128_limit() {
        None
    } else {
        Some(weighted_total(terms, now))
    }
}

proof fn lemma_weighted_total_prefix(terms: Seq<(u128, Option<Locked>)>, k: int, now: u64)
    requires
        0 <= k <= terms.len(),
    ensures
        weighted_total(terms.take(k), now) <= weighted_total(terms, now),
    decreases terms.len(),
{
    if k < terms.len() {
        assert(terms.drop_last().take(k) =~= terms.take(k));
        lemma_weighted_total_prefix(terms.drop_last(), k, now);
    } else {
        assert(terms.take(k) =~= terms);
    }
}

/// Add the weighted amounts of `terms` to `acc`, or `None` on an overflow.
fn add_terms(terms: &Vec<(u128, Option<Locked>)>, now: u64) -> (r: Option<u128>)
    ensures
        match r {
            Some(v) => {
                &&& forall|k: int| 0 <= k < terms@.len() ==> !term_overflows(#[trigger] terms@[k], now)
                &&& v as nat == weighted_total(terms@, now)
            },
            None => (exists|k: int| 0 <= k < terms@.len() && term_overflows(#[trigger] terms@[k], now))
                || weighted_total(terms@, now) >= u128_limit(),
        },
{
    let mut total: u128 = 0;
    let mut i: usize = 0;
    while i < terms.len()
        invariant
            i <= terms.len(),
            forall|k: int| 0 <= k < i ==> !term_overflows(#[trigger] terms@[k], now),
            total as nat == weighted_total(terms@.take(i as int), now),
        decreases terms.len() - i,
    {
        assert(terms@.take(i + 1).drop_last() =~= terms@.take(i as int));
        let (amount, locked) = terms[i];
        if let Some(l) = locked {
            if let Some(d) = l.perpetual_lock {
                if d == u64::MAX {
                    assert(term_overflows(terms@[i as int], now));
                    return None;
                }
            }
        }
        let m = calculate_lock_multiplier(&locked, now);
        let p = match amount.checked_mul(m as u128) {
            Some(p) => p,
            None => {
                assert(term_overflows(terms@[i as int], now));
                return None;
            },
        };
        total = match total.checked_add(p) {
            Some(t) => t,
            None => {
                proof { lemma_weighted_total_prefix(terms@, i + 1, now); }
                return None;
            },
        };
        i = i + 1;
    }
    assert(terms@.take(terms.len() as int) =~= terms@);
    Some(total)
}

/// The voting power of a user from their LTV-disco deposits and stakes at
/// time `now` (see `voting_power_of`); `None` for a query that failed.
pub fn voting_power(disco: &Option<Vec<LockedDeposit>>, stakes: &Option<Vec<StakeDeposit>>, now: u64) -> (r: Result<u128, VotingError>)
    ensures
        ({
            let d = match disco { Some(v) => v@, None => Seq::empty() };
            let s = match stakes { Some(v) => v@, None => Seq::empty() };
            match voting_power_of(d, s, now) {
                Some(p) => r == Ok::<u128, VotingError>(p as u128),
                None => r matches Err(VotingError::Overflow),
            }
        }),
{
    let ghost d = match disco { Some(v) => v@, None => Seq::<LockedDeposit>::empty() };
    let ghost s = match stakes { Some(v) => v@, None => Seq::<StakeDeposit>::empty() };
    let mut terms: Vec<(u128, Option<Locked>)> = Vec::new();
    if let Some(v) = disco {
        let mut i: usize = 0;
        while i < v.len()
            invariant
                i <= v.len(),
                d == v@,
                terms@ == d.take(i as int).map_values(|x: LockedDeposit| (x.vault_tokens, x.locked)),
            decreases v.len() - i,
        {
            terms.push((v[i].vault_tokens, v[i].locked));
            assert(terms@ =~= d.take(i + 1).map_values(|x: LockedDeposit| (x.vault_tokens, x.locked)));
            i = i + 1;
        }
        assert(d.take(v.len() as int) =~= d);
    }
    assert(terms@ =~= d.map_values(|x: LockedDeposit| (x.vault_tokens, x.locked)));
    let ghost first = terms@;
    if let Some(v) = stakes {
        let mut i: usize = 0;
        let ghost pred = |x: StakeDeposit| x.unstake_start_time is None;
        assert(s.take(0) =~= Seq::<StakeDeposit>::empty());
        assert(terms@ =~= first + s.take(0).filter(pred).map_values(|x: StakeDeposit| (x.amount, x.locked)));
        while i < v.len()
            invariant
                i <= v.len(),
                s == v@,
                pred == (|x: StakeDeposit| x.unstake_start_time is None),
                terms@ == first + s.take(i as int).filter(pred).map_values(|x: StakeDeposit| (x.amount, x.locked)),
            decreases v.len() - i,
        {
            proof {
                assert(s.take(i + 1) =~= s.take(i as int).push(s[i as int]));
                s.take(i as int).lemma_filter_push(s[i as int], pred);
            }
            if v[i].unstake_start_time.is_none() {
                terms.push((v[i].amount, v[i].locked));
            }
            assert(terms@ =~= first + s.take(i + 1).filter(pred).map_values(|x: StakeDeposit| (x.amount, x.locked)));
            i = i + 1;
        }
        assert(s.take(v.len() as int) =~= s);
    } else {
        assert(s.filter(|x: StakeDeposit| x.unstake_start_time is None) =~= Seq::<StakeDeposit>::empty());
    }
    assert(terms@ =~= power_terms(d, s));
    match add_terms(&terms, now) {
        Some(p) => Ok(p),
        None => Err(VotingError::Overflow),
    }
}

} // verus!
