//! The discount vault's state: accepted LP share tokens, and each user's
//! vaulted LPs under the user's address, in key order.
use vstd::prelude::*;
use crate::keys::{key_lt, key_index, lemma_key_index, lemma_key_index_prefix, keys_sorted, insert_position,
    lemma_sorted_insert, lemma_key_order, label_lt};
use crate::liq_queue::types::{AssetInfo, Asset};

verus! {

/// Seconds in a day.
pub const SECONDS_PER_DAY: u64 = 86_400;

/// An LP pool whose share token the vault accepts.
#[derive(Debug)]
pub struct LPPoolInfo {
    pub share_token: AssetInfo,
    pub pool_id: u64,
}

/// A deposit of LP shares, with the time it was made.
#[derive(Debug)]
pub struct VaultedLP {
    pub gamm: AssetInfo,
    pub amount: u128,
    pub deposit_time: u64,
}

/// A user and their deposits.
#[derive(Debug)]
pub struct VaultUser {
    pub user: String,
    pub vaulted_lps: Vec<VaultedLP>,
}

/// Native funds sent along with a message.
#[derive(Debug)]
pub struct Coin {
    pub denom: String,
    pub amount: u128,
}

/// The configuration.
#[derive(Debug)]
pub struct Config {
    pub owner: String,
    pub positions_contract: String,
    pub osmosis_proxy: String,
    pub accepted_LPs: Vec<LPPoolInfo>,
    pub deposits_enabled: bool,
}

/// The vault: its configuration, its users in key order, and the address
/// an ownership transfer was offered to.
pub struct DiscountVault {
    pub config: Config,
    pub users: Vec<VaultUser>,
    pub ownership_transfer: Option<String>,
}

/// Why an operation of the vault was refused.
#[derive(Debug)]
pub enum VaultError {
    Unauthorized,
    /// Deposits are switched off.
    DepositsDisabled,
    /// Funds were sent that are not an accepted LP share token.
    InvalidAsset,
    /// More was asked of an asset than the user has vaulted.
    InvalidWithdrawal { val: Asset },
    /// The user has no deposits.
    UserNotFound,
    /// No ownership transfer was offered.
    NoOwnershipTransfer,
    /// The LP pool does not hold the debt token.
    LPWithoutDebtToken { pool_id: u64 },
    /// A deposit is dated after the current time.
    DepositInFuture,
    /// An amount did not fit its integer type.
    Overflow,
}

impl VaultedLP {
    pub fn copy(&self) -> (r: VaultedLP)
        ensures
            r == *self,
    {
        VaultedLP { gamm: self.gamm.copy(), amount: self.amount, deposit_time: self.deposit_time }
    }
}

impl LPPoolInfo {
    pub fn copy(&self) -> (r: LPPoolInfo)
        ensures
            r == *self,
    {
        LPPoolInfo { share_token: self.share_token.copy(), pool_id: self.pool_id }
    }
}

impl Asset {
    pub fn copy(&self) -> (r: Asset)
        ensures
            r == *self,
    {
        Asset { info: self.info.copy(), amount: self.amount }
    }
}

/// The users as (address text, deposits) pairs.
pub open spec fn users_view(v: Seq<VaultUser>) -> Seq<(Seq<char>, Seq<VaultedLP>)> {
    v.map_values(|u: VaultUser| (u.user@, u.vaulted_lps@))
}

/// The addresses of the users.
pub open spec fn user_keys(v: Seq<(Seq<char>, Seq<VaultedLP>)>) -> Seq<Seq<char>> {
    v.map_values(|u: (Seq<char>, Seq<VaultedLP>)| u.0)
}

/// The index of user `key`.
pub open spec fn user_index(v: Seq<(Seq<char>, Seq<VaultedLP>)>, key: Seq<char>) -> Option<int> {
    key_index(user_keys(v), key)
}

pub proof fn lemma_user_index(v: Seq<(Seq<char>, Seq<VaultedLP>)>, key: Seq<char>)
    ensures
        user_index(v, key) matches Some(i) ==> 0 <= i < v.len() && v[i].0 == key,
        user_index(v, key) is None ==> forall|j: int| 0 <= j < v.len() ==> v[j].0 != key,
{
    lemma_key_index(user_keys(v), key);
    if user_index(v, key) is None {
        assert forall|j: int| 0 <= j < v.len() implies v[j].0 != key by {
            assert(user_keys(v)[j] == v[j].0);
        }
    }
}

/// The deposits of user `key`; none where the user is unknown.
pub open spec fn deposits_of(v: Seq<(Seq<char>, Seq<VaultedLP>)>, key: Seq<char>) -> Seq<VaultedLP> {
    match user_index(v, key) {
        Some(i) => v[i].1,
        None => Seq::empty(),
    }
}

/// `new` is `old` with user `key` holding `lps`, in place of their entry or
/// inserted where there was none.
pub open spec fn user_saved(old: Seq<(Seq<char>, Seq<VaultedLP>)>, new: Seq<(Seq<char>, Seq<VaultedLP>)>, key: Seq<char>,
    lps: Seq<VaultedLP>) -> bool {
    match user_index(old, key) {
        Some(i) => new == old.update(i, (key, lps)),
        None => exists|pos: int| 0 <= pos <= old.len() && new == old.insert(pos, (key, lps)),
    }
}

impl DiscountVault {
    /// The users under their addresses.
    pub open spec fn users_spec(&self) -> Seq<(Seq<char>, Seq<VaultedLP>)> {
        users_view(self.users@)
    }

    /// The users are in key order.
    pub open spec fn wf(&self) -> bool {
        keys_sorted(user_keys(self.users_spec()))
    }

    /// Whether the users are in key order (see `wf`).
    pub fn is_wf(&self) -> (r: bool)
        ensures
            r == self.wf(),
    {
        let ghost keys = user_keys(self.users_spec());
        if self.users.len() == 0 {
            return true;
        }
        let mut i: usize = 1;
        while i < self.users.len()
            invariant
                1 <= i <= self.users.len(),
                keys == user_keys(self.users_spec()),
                keys.len() == self.users@.len(),
                keys_sorted(keys.take(i as int)),
            decreases self.users.len() - i,
        {
            assert(keys[i - 1] == self.users@[i - 1].user@);
            assert(keys[i as int] == self.users@[i as int].user@);
            if !label_lt(&self.users[i - 1].user, &self.users[i].user) {
                return false;
            }
            proof {
                assert forall|a: int, b: int| 0 <= a < b < i + 1 implies
                    key_lt(#[trigger] keys.take(i + 1)[a], #[trigger] keys.take(i + 1)[b]) by {
                    if b < i {
                        assert(keys.take(i as int)[a] == keys[a] && keys.take(i as int)[b] == keys[b]);
                    } else if a < i - 1 {
                        assert(keys.take(i as int)[a] == keys[a] && keys.take(i as int)[i - 1] == keys[i - 1]);
                        lemma_key_order(keys[a], keys[i - 1], keys[i as int]);
                    }
                }
            }
            i = i + 1;
        }
        assert(keys.take(i as int) =~= keys);
        true
    }
}

/// The index of user `key`.
pub fn find_user(v: &Vec<VaultUser>, key: &String) -> (r: Option<usize>)
    ensures
        match r {
            Some(i) => user_index(users_view(v@), key@) == Some(i as int),
            None => user_index(users_view(v@), key@) is None,
        },
{
    let ghost ks = user_keys(users_view(v@));
    let mut i: usize = 0;
    while i < v.len()
        invariant
            i <= v.len(),
            ks == user_keys(users_view(v@)),
            key_index(ks.take(i as int), key@) is None,
        decreases v.len() - i,
    {
        assert(ks.take(i + 1).drop_last() =~= ks.take(i as int));
        assert(ks.take(i + 1).last() == v@[i as int].user@);
        if v[i].user == *key {
            proof { lemma_key_index_prefix(ks, key@, i as int); }
            return Some(i);
        }
        i = i + 1;
    }
    assert(ks.take(v.len() as int) =~= ks);
    None
}

/// Save user `key` with deposits `lps`.
pub fn save_user(v: &mut Vec<VaultUser>, key: String, lps: Vec<VaultedLP>)
    requires
        keys_sorted(user_keys(users_view(old(v)@))),
    ensures
        keys_sorted(user_keys(users_view(final(v)@))),
        user_saved(users_view(old(v)@), users_view(final(v)@), key@, lps@),
{
    let ghost before = users_view(v@);
    let ghost lv = lps@;
    let ghost k = key@;
    match find_user(v, &key) {
        Some(i) => {
            proof { lemma_user_index(before, k); }
            v.set(i, VaultUser { user: key, vaulted_lps: lps });
            proof {
                assert(users_view(v@) =~= before.update(i as int, (k, lv)));
                assert(user_keys(users_view(v@)) =~= user_keys(before));
            }
        },
        None => {
            let ghost ks = user_keys(before);
            proof { lemma_user_index(before, k); }
            let mut pos: usize = 0;
            while pos < v.len()
                invariant
                    pos <= v.len(),
                    ks == user_keys(users_view(v@)),
                    keys_sorted(ks),
                    forall|j: int| 0 <= j < ks.len() ==> ks[j] != key@,
                    forall|j: int| 0 <= j < pos ==> key_lt(#[trigger] ks[j], key@),
                ensures
                    pos <= v.len(),
                    ks == user_keys(users_view(v@)),
                    forall|j: int| 0 <= j < pos ==> key_lt(#[trigger] ks[j], key@),
                    pos < v.len() ==> key_lt(key@, ks[pos as int]),
                decreases v.len() - pos,
            {
                assert(ks[pos as int] == v@[pos as int].user@);
                proof { lemma_key_order(ks[pos as int], key@, key@); }
                if label_lt(&key, &v[pos].user) {
                    break;
                }
                pos = pos + 1;
            }
            proof {
                assert forall|j: int| pos <= j < ks.len() implies key_lt(key@, #[trigger] ks[j]) by {
                    if j > pos {
                        lemma_key_order(key@, ks[pos as int], ks[j]);
                    }
                }
                assert(insert_position(ks, key@, pos as int));
                lemma_sorted_insert(ks, key@, pos as int);
            }
            v.insert(pos, VaultUser { user: key, vaulted_lps: lps });
            proof {
                assert(users_view(v@) =~= before.insert(pos as int, (k, lv)));
                assert(user_keys(users_view(v@)) =~= ks.insert(pos as int, k));
            }
        },
    }
}

/// A copy of the deposits.
pub fn copy_lps(v: &Vec<VaultedLP>) -> (r: Vec<VaultedLP>)
    ensures
        r@ == v@,
{
    let mut out: Vec<VaultedLP> = Vec::new();
    let mut i: usize = 0;
    while i < v.len()
        invariant
            i <= v.len(),
            out@ == v@.take(i as int),
        decreases v.len() - i,
    {
        out.push(v[i].copy());
        assert(out@ =~= v@.take(i + 1));
        i = i + 1;
    }
    assert(v@.take(v.len() as int) =~= v@);
    out
}

} // verus!
