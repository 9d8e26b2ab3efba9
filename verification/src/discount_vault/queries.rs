//! Reading the vault: a user's deposits and the discount value they earn,
//! and the users in key order.
use vstd::prelude::*;
use crate::discount_vault::laws::law_eligible_by_age;
use crate::keys::{key_lt, label_lt};
use crate::math::u128_limit;
use crate::emissions_voting::queries::lemma_filter_prefix;
use crate::governance::queries::first_n;
use crate::emissions_voting::queries::opt_text;
use crate::liq_queue::types::AssetInfo;
use crate::discount_vault::state::{SECONDS_PER_DAY, LPPoolInfo, VaultedLP, VaultUser, DiscountVault, VaultError,
    users_view, user_index, lemma_user_index, find_user, copy_lps};

verus! {

/// Users listed when no limit is given.
pub const PAGINATION_DEFAULT_LIMIT: u64 = 10;
/// The most users listed at once.
pub const PAGINATION_MAX_LIMIT: u64 = 30;

/// A user's deposits counted for a discount, and the value they earn.
#[derive(Debug)]
pub struct UserResponse {
    pub user: String,
    pub deposits: Vec<VaultedLP>,
    pub discount_value: u128,
}

/// The deposits made at least `min_secs` seconds before `now`.
pub open spec fn eligible(ds: Seq<VaultedLP>, min_secs: nat, now: u64) -> Seq<VaultedLP> {
    ds.filter(|d: VaultedLP| now - d.deposit_time >= min_secs)
}

/// The index of the first accepted LP whose share token is `gamm`.
pub open spec fn lp_index(accepted: Seq<LPPoolInfo>, gamm: AssetInfo) -> Option<int>
    decreases accepted.len(),
{
    if accepted.len() == 0 {
        None
    } else {
        match lp_index(accepted.drop_last(), gamm) {
            Some(k) => Some(k),
            None => if accepted.last().share_token.same(&gamm) { Some(accepted.len() - 1) } else { None },
        }
    }
}

/// The sum of the values of the deposits whose share token is accepted
/// (`values[k]` belongs to `ds[k]`; a missing value counts 0).
pub open spec fn counted_value(accepted: Seq<LPPoolInfo>, ds: Seq<VaultedLP>, values: Seq<u128>) -> nat
    decreases ds.len(),
{
    if ds.len() == 0 {
        0
    } else {
        let k = ds.len() - 1;
        let v = if lp_index(accepted, ds.last().gamm) is Some && k < values.len() { values[k] as nat } else { 0 };
        counted_value(accepted, ds.drop_last(), values) + v
    }
}

/// `limit`, or the default, at most the maximum.
pub open spec fn page_size(limit: Option<u64>) -> nat {
    let l = match limit { Some(l) => l, None => PAGINATION_DEFAULT_LIMIT };
    if l < PAGINATION_MAX_LIMIT { l as nat } else { PAGINATION_MAX_LIMIT as nat }
}

/// The users after `start` (all where there is none), in key order, at
/// most as many as `limit` allows.
pub open spec fn listed_users(users: Seq<(Seq<char>, Seq<VaultedLP>)>, start: Option<Seq<char>>, limit: Option<u64>)
    -> Seq<(Seq<char>, Seq<VaultedLP>)> {
    first_n(users.filter(|u: (Seq<char>, Seq<VaultedLP>)| start matches Some(s) ==> key_lt(s, u.0)), page_size(limit))
}

proof fn lemma_lp_index(accepted: Seq<LPPoolInfo>, gamm: AssetInfo)
    ensures
        lp_index(accepted, gamm) matches Some(k) ==> 0 <= k < accepted.len() && accepted[k].share_token.same(&gamm),
        lp_index(accepted, gamm) is None ==> forall|j: int| 0 <= j < accepted.len() ==> !accepted[j].share_token.same(&gamm),
    decreases accepted.len(),
{
    if accepted.len() > 0 {
        lemma_lp_index(accepted.drop_last(), gamm);
        assert forall|j: int| 0 <= j < accepted.len() - 1 implies accepted[j] == accepted.drop_last()[j] by {}
    }
}

proof fn lemma_lp_index_prefix(accepted: Seq<LPPoolInfo>, gamm: AssetInfo, i: int)
    requires
        0 <= i < accepted.len(),
        lp_index(accepted.take(i), gamm) is None,
        accepted[i].share_token.same(&gamm),
    ensures
        lp_index(accepted, gamm) == Some(i),
    decreases accepted.len(),
{
    if i < accepted.len() - 1 {
        assert(accepted.drop_last().take(i) =~= accepted.take(i));
        lemma_lp_index_prefix(accepted.drop_last(), gamm, i);
        assert(accepted.drop_last()[i] == accepted[i]);
    } else {
        assert(accepted.drop_last() =~= accepted.take(i));
    }
}

impl DiscountVault {
    /// The pool of the first accepted LP whose share token is that of
    /// deposit `lp`; `None` where its LP is no longer accepted.
    pub fn counted_pool(&self, lp: &VaultedLP) -> (r: Option<u64>)
        ensures
            match lp_index(self.config.accepted_LPs@, lp.gamm) {
                Some(k) => r == Some(self.config.accepted_LPs@[k].pool_id),
                None => r is None,
            },
    {
        let ghost acc = self.config.accepted_LPs@;
        let mut i: usize = 0;
        while i < self.config.accepted_LPs.len()
            invariant
                i <= self.config.accepted_LPs.len(),
                acc == self.config.accepted_LPs@,
                lp_index(acc.take(i as int), lp.gamm) is None,
            decreases self.config.accepted_LPs.len() - i,
        {
            assert(acc.take(i + 1).drop_last() =~= acc.take(i as int));
            if self.config.accepted_LPs[i].share_token.equal(&lp.gamm) {
                proof { lemma_lp_index_prefix(acc, lp.gamm, i as int); }
                return Some(self.config.accepted_LPs[i].pool_id);
            }
            assert(acc.take(i + 1).last() == acc[i as int]);
            i = i + 1;
        }
        assert(acc.take(acc.len() as int) =~= acc);
        None
    }

    /// The deposits of `user` made at least `minimum_deposit_time` days
    /// (0 by default) before `now`.
    pub fn eligible_deposits(&self, user: &String, minimum_deposit_time: Option<u64>, now: u64)
        -> (r: Result<Vec<VaultedLP>, VaultError>)
        ensures
            match user_index(self.users_spec(), user@) {
                None => r matches Err(VaultError::UserNotFound),
                Some(i) => {
                    let ds = self.users_spec()[i].1;
                    let days = match minimum_deposit_time { Some(d) => d, None => 0 };
                    if days * SECONDS_PER_DAY > u64::MAX {
                        r matches Err(VaultError::Overflow)
                    } else if exists|k: int| 0 <= k < ds.len() && (#[trigger] ds[k]).deposit_time > now {
                        r matches Err(VaultError::DepositInFuture)
                    } else {
                        r matches Ok(v) && v@ == eligible(ds, (days * SECONDS_PER_DAY) as nat, now)
                            && (forall|k: int| 0 <= k < v@.len() ==>
                                now - (#[trigger] v@[k]).deposit_time >= days * 86_400 && ds.contains(v@[k]))
                            && (forall|k: int| 0 <= k < ds.len() ==>
                                (now - (#[trigger] ds[k]).deposit_time >= days * 86_400 <==> v@.contains(ds[k])))
                    }
                },
            },
    {
        proof { lemma_user_index(self.users_spec(), user@); }
        let idx = match find_user(&self.users, user) {
            Some(i) => i,
            None => return Err(VaultError::UserNotFound),
        };
        let ds = &self.users[idx].vaulted_lps;
        assert(ds@ == self.users_spec()[idx as int].1);
        let days = match minimum_deposit_time { Some(d) => d, None => 0 };
        let min_secs = match days.checked_mul(SECONDS_PER_DAY) {
            Some(m) => m,
            None => return Err(VaultError::Overflow),
        };
        let ghost pred = |d: VaultedLP| now - d.deposit_time >= min_secs as nat;
        let mut out: Vec<VaultedLP> = Vec::new();
        let mut i: usize = 0;
        assert(ds@.take(0).filter(pred) =~= Seq::<VaultedLP>::empty());
        while i < ds.len()
            invariant
                i <= ds.len(),
                pred == (|d: VaultedLP| now - d.deposit_time >= min_secs as nat),
                ds@ == self.users_spec()[idx as int].1,
                user_index(self.users_spec(), user@) == Some(idx as int),
                days == (match minimum_deposit_time { Some(d) => d, None => 0 }),
                min_secs == days * SECONDS_PER_DAY,
                forall|k: int| 0 <= k < i ==> (#[trigger] ds@[k]).deposit_time <= now,
                out@ == ds@.take(i as int).filter(pred),
            decreases ds.len() - i,
        {
            proof {
                assert(ds@.take(i + 1) =~= ds@.take(i as int).push(ds@[i as int]));
                ds@.take(i as int).lemma_filter_push(ds@[i as int], pred);
            }
            if ds[i].deposit_time > now {
                assert(ds@[i as int].deposit_time > now);
                return Err(VaultError::DepositInFuture);
            }
            if now - ds[i].deposit_time >= min_secs {
                out.push(ds[i].copy());
            }
            i = i + 1;
        }
        assert(ds@.take(ds.len() as int) =~= ds@);
        proof {
            law_eligible_by_age(ds@, days as nat, now);
            assert((days * SECONDS_PER_DAY) as nat == days as nat * 86_400);
        }
        Ok(out)
    }

    /// The response for `user`: their deposits as given, and as discount
    /// value twice the sum of `values` over the deposits whose LP is still
    /// accepted (`values[k]` is the debt-token side of `deposits[k]`, valued
    /// at the credit price; LPs are taken as 50:50).
    pub fn user_response(&self, user: String, deposits: Vec<VaultedLP>, values: &Vec<u128>)
        -> (r: Result<UserResponse, VaultError>)
        ensures
            2 * counted_value(self.config.accepted_LPs@, deposits@, values@) >= u128_limit()
                ==> r matches Err(VaultError::Overflow),
            2 * counted_value(self.config.accepted_LPs@, deposits@, values@) < u128_limit()
                ==> (r matches Ok(resp) && resp.user == user && resp.deposits@ == deposits@
                    && resp.discount_value == 2 * counted_value(self.config.accepted_LPs@, deposits@, values@)),
    {
        let ghost acc = self.config.accepted_LPs@;
        let mut total: u128 = 0;
        let mut i: usize = 0;
        while i < deposits.len()
            invariant
                i <= deposits.len(),
                acc == self.config.accepted_LPs@,
                total == counted_value(acc, deposits@.take(i as int), values@),
            decreases deposits.len() - i,
        {
            assert(deposits@.take(i + 1).drop_last() =~= deposits@.take(i as int));
            assert(deposits@.take(i + 1).last() == deposits@[i as int]);
            let counted = self.counted_pool(&deposits[i]).is_some() && i < values.len();
            if counted {
                total = match total.checked_add(values[i]) {
                    Some(t) => t,
                    None => {
                        proof { lemma_counted_value_prefix(acc, deposits@, values@, i + 1); }
                        return Err(VaultError::Overflow);
                    },
                };
            }
            i = i + 1;
        }
        assert(deposits@.take(deposits.len() as int) =~= deposits@);
        let value = match total.checked_mul(2) {
            Some(v) => v,
            None => return Err(VaultError::Overflow),
        };
        Ok(UserResponse { user, deposits, discount_value: value })
    }

    /// The users after `start_after` in key order, with their deposits, at
    /// most `limit` of them (10 by default, at most 30).
    pub fn get_deposits(&self, limit: Option<u64>, start_after: Option<String>) -> (r: Vec<VaultUser>)
        ensures
            users_view(r@) == listed_users(self.users_spec(), opt_text(start_after), limit),
    {
        let ghost us = self.users_spec();
        let ghost start = opt_text(start_after);
        let ghost pred = |u: (Seq<char>, Seq<VaultedLP>)| start matches Some(s) ==> key_lt(s, u.0);
        let l = match limit { Some(l) => l, None => PAGINATION_DEFAULT_LIMIT };
        let n: u64 = if l < PAGINATION_MAX_LIMIT { l } else { PAGINATION_MAX_LIMIT };
        let mut out: Vec<VaultUser> = Vec::new();
        let mut i: usize = 0;
        assert(us.take(0).filter(pred) =~= Seq::<(Seq<char>, Seq<VaultedLP>)>::empty());
        assert(users_view(out@) =~= us.take(0).filter(pred));
        while i < self.users.len() && (out.len() as u64) < n
            invariant
                i <= self.users.len(),
                out@.len() <= n,
                n as nat == page_size(limit),
                us == self.users_spec(),
                start == opt_text(start_after),
                pred == (|u: (Seq<char>, Seq<VaultedLP>)| start matches Some(s) ==> key_lt(s, u.0)),
                users_view(out@) == us.take(i as int).filter(pred),
            decreases self.users.len() - i,
        {
            proof {
                assert(us.take(i + 1) =~= us.take(i as int).push(us[i as int]));
                us.take(i as int).lemma_filter_push(us[i as int], pred);
            }
            let keep = match &start_after {
                Some(s) => label_lt(s, &self.users[i].user),
                None => true,
            };
            if keep {
                let ghost before = users_view(out@);
                let u = VaultUser { user: self.users[i].user.clone(), vaulted_lps: copy_lps(&self.users[i].vaulted_lps) };
                out.push(u);
                assert(users_view(out@) =~= before.push(us[i as int]));
            }
            i = i + 1;
        }
        proof {
            let f = us.filter(pred);
            lemma_filter_prefix(us, pred, i as int);
            if i == self.users.len() {
                assert(us.take(i as int) =~= us);
                assert(f.take(f.len() as int) =~= f);
            }
            assert(first_n(f, n as nat) =~= us.take(i as int).filter(pred));
        }
        out
    }
}

proof fn lemma_counted_value_prefix(acc: Seq<LPPoolInfo>, ds: Seq<VaultedLP>, values: Seq<u128>, k: int)
    requires
        0 <= k <= ds.len(),
    ensures
        counted_value(acc, ds.take(k), values) <= counted_value(acc, ds, values),
    decreases ds.len() - k,
{
    if k < ds.len() {
        lemma_counted_value_prefix(acc, ds, values, k + 1);
        assert(ds.take(k + 1).drop_last() =~= ds.take(k));
    } else {
        assert(ds.take(k) =~= ds);
    }
}

} // verus!
