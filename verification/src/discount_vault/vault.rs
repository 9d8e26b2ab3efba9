//! Depositing and withdrawing LP shares, and the owner's operations.
use vstd::prelude::*;
use crate::liq_queue::types::{AssetInfo, Asset};
use crate::discount_vault::state::{LPPoolInfo, VaultedLP, VaultUser, Coin, Config, DiscountVault, VaultError,
    user_keys, user_index, lemma_user_index, deposits_of, user_saved, find_user, save_user, copy_lps};

verus! {

/// The state of an LP pool as queried: its id, its share token and the
/// denoms of the assets it holds.
#[derive(Debug)]
pub struct PoolState {
    pub pool_id: u64,
    pub share_denom: String,
    pub asset_denoms: Vec<String>,
}

/// A change of the accepted LPs: removing pools by id, or adding pools (as
/// queried) that must hold the debt token `debt_denom`.
#[derive(Debug)]
pub enum LpEdit {
    Remove { pool_ids: Vec<u64> },
    Add { pools: Vec<PoolState>, debt_denom: String },
}

/// Whether pool `p` holds the debt token.
pub open spec fn holds_debt_token(p: PoolState, debt_denom: Seq<char>) -> bool {
    exists|k: int| 0 <= k < p.asset_denoms@.len() && (#[trigger] p.asset_denoms@[k])@ == debt_denom
}

/// The accepted LP of pool `p`.
pub open spec fn lp_of(p: PoolState) -> LPPoolInfo {
    LPPoolInfo { share_token: AssetInfo::NativeToken { denom: p.share_denom }, pool_id: p.pool_id }
}

/// Whether `t` is the native token `denom`.
pub open spec fn is_native(t: AssetInfo, denom: Seq<char>) -> bool {
    match t {
        AssetInfo::NativeToken { denom: d } => d@ == denom,
        AssetInfo::Token { .. } => false,
    }
}

/// Whether `denom` is the share token of an accepted LP.
pub open spec fn accepts(accepted: Seq<LPPoolInfo>, denom: Seq<char>) -> bool {
    exists|k: int| 0 <= k < accepted.len() && is_native((#[trigger] accepted[k]).share_token, denom)
}

/// The funds as assets.
pub open spec fn as_assets(funds: Seq<Coin>) -> Seq<Asset> {
    funds.map_values(|c: Coin| Asset { info: AssetInfo::NativeToken { denom: c.denom }, amount: c.amount })
}

/// The funds as deposits made at time `now`.
pub open spec fn as_deposits(funds: Seq<Coin>, now: u64) -> Seq<VaultedLP> {
    funds.map_values(|c: Coin| VaultedLP { gamm: AssetInfo::NativeToken { denom: c.denom }, amount: c.amount, deposit_time: now })
}

/// Whether some deposit is of asset `info`.
pub open spec fn owns(deposits: Seq<VaultedLP>, info: AssetInfo) -> bool {
    exists|k: int| 0 <= k < deposits.len() && (#[trigger] deposits[k]).gamm.same(&info)
}

/// The assets of which some deposit is held.
pub open spec fn owned_assets(deposits: Seq<VaultedLP>, assets: Seq<Asset>) -> Seq<Asset> {
    assets.filter(|a: Asset| owns(deposits, a.info))
}

/// The deposits after taking `want` of asset `info` from them in order,
/// each down to zero at most; and what could not be taken.
pub open spec fn take_from(ds: Seq<VaultedLP>, info: AssetInfo, want: nat) -> (Seq<VaultedLP>, nat)
    decreases ds.len(),
{
    if ds.len() == 0 {
        (ds, want)
    } else {
        let (p, rem) = take_from(ds.drop_last(), info, want);
        let d = ds.last();
        if d.gamm.same(&info) && rem != 0 {
            if rem >= d.amount {
                (p.push(VaultedLP { amount: 0, ..d }), (rem - d.amount) as nat)
            } else {
                (p.push(VaultedLP { amount: (d.amount - rem) as u128, ..d }), 0)
            }
        } else {
            (p.push(d), rem)
        }
    }
}

/// The deposits after taking each of the assets in turn; or the first
/// asset of which not all could be taken.
pub open spec fn withdraw_all(ds: Seq<VaultedLP>, assets: Seq<Asset>) -> Result<Seq<VaultedLP>, Asset>
    decreases assets.len(),
{
    if assets.len() == 0 {
        Ok(ds)
    } else {
        match withdraw_all(ds, assets.drop_last()) {
            Err(a) => Err(a),
            Ok(d2) => {
                let (d3, rem) = take_from(d2, assets.last().info, assets.last().amount as nat);
                if rem != 0 { Err(assets.last()) } else { Ok(d3) }
            },
        }
    }
}

/// The accepted LPs after removing, for each id in turn, the first with
/// that pool id.
pub open spec fn without_pools(lps: Seq<LPPoolInfo>, ids: Seq<u64>) -> Seq<LPPoolInfo>
    decreases ids.len(),
{
    if ids.len() == 0 {
        lps
    } else {
        let l = without_pools(lps, ids.drop_last());
        match first_pool(l, ids.last()) {
            Some(k) => l.remove(k),
            None => l,
        }
    }
}

/// The index of the first LP of pool `id`.
pub open spec fn first_pool(lps: Seq<LPPoolInfo>, id: u64) -> Option<int>
    decreases lps.len(),
{
    if lps.len() == 0 {
        None
    } else {
        match first_pool(lps.drop_last(), id) {
            Some(k) => Some(k),
            None => if lps.last().pool_id == id { Some(lps.len() - 1) } else { None },
        }
    }
}

proof fn lemma_first_pool(lps: Seq<LPPoolInfo>, id: u64)
    ensures
        first_pool(lps, id) matches Some(k) ==> 0 <= k < lps.len() && lps[k].pool_id == id
            && forall|j: int| 0 <= j < k ==> lps[j].pool_id != id,
        first_pool(lps, id) is None ==> forall|j: int| 0 <= j < lps.len() ==> lps[j].pool_id != id,
    decreases lps.len(),
{
    if lps.len() > 0 {
        lemma_first_pool(lps.drop_last(), id);
        assert forall|j: int| 0 <= j < lps.len() - 1 implies lps[j] == lps.drop_last()[j] by {}
    }
}

/// The LP of pool `pool`, where it holds the debt token.
pub fn create_and_validate_LP_object(pool: &PoolState, debt_denom: &String) -> (r: Result<LPPoolInfo, VaultError>)
    ensures
        holds_debt_token(*pool, debt_denom@) ==> (r matches Ok(lp) && lp == lp_of(*pool)),
        !holds_debt_token(*pool, debt_denom@) ==> (r matches Err(VaultError::LPWithoutDebtToken { pool_id })
            && pool_id == pool.pool_id),
{
    let mut i: usize = 0;
    while i < pool.asset_denoms.len()
        invariant
            i <= pool.asset_denoms.len(),
            forall|j: int| 0 <= j < i ==> (#[trigger] pool.asset_denoms@[j])@ != debt_denom@,
        decreases pool.asset_denoms.len() - i,
    {
        if pool.asset_denoms[i] == *debt_denom {
            assert(pool.asset_denoms@[i as int]@ == debt_denom@);
            return Ok(LPPoolInfo { share_token: AssetInfo::NativeToken { denom: pool.share_denom.clone() }, pool_id: pool.pool_id });
        }
        i = i + 1;
    }
    Err(VaultError::LPWithoutDebtToken { pool_id: pool.pool_id })
}

/// Whether `denom` is the share token of one of `accepted`.
fn accepted_denom(accepted: &Vec<LPPoolInfo>, denom: &String) -> (r: bool)
    ensures
        r == accepts(accepted@, denom@),
{
    let mut i: usize = 0;
    while i < accepted.len()
        invariant
            i <= accepted.len(),
            forall|j: int| 0 <= j < i ==> !is_native((#[trigger] accepted@[j]).share_token, denom@),
        decreases accepted.len() - i,
    {
        let hit = match &accepted[i].share_token {
            AssetInfo::NativeToken { denom: d } => *d == *denom,
            AssetInfo::Token { .. } => false,
        };
        if hit {
            assert(is_native(accepted@[i as int].share_token, denom@));
            return true;
        }
        i = i + 1;
    }
    false
}

/// The funds as assets, where each is an accepted LP share token.
pub fn validate_assets(funds: &Vec<Coin>, accepted: &Vec<LPPoolInfo>) -> (r: Result<Vec<Asset>, VaultError>)
    ensures
        (forall|k: int| 0 <= k < funds@.len() ==> accepts(accepted@, (#[trigger] funds@[k]).denom@))
            ==> (r matches Ok(v) && v@ == as_assets(funds@)),
        !(forall|k: int| 0 <= k < funds@.len() ==> accepts(accepted@, (#[trigger] funds@[k]).denom@))
            ==> r matches Err(VaultError::InvalidAsset),
{
    let mut out: Vec<Asset> = Vec::new();
    let mut i: usize = 0;
    while i < funds.len()
        invariant
            i <= funds.len(),
            forall|k: int| 0 <= k < i ==> accepts(accepted@, (#[trigger] funds@[k]).denom@),
            out@ == as_assets(funds@.take(i as int)),
        decreases funds.len() - i,
    {
        if !accepted_denom(accepted, &funds[i].denom) {
            return Err(VaultError::InvalidAsset);
        }
        out.push(Asset { info: AssetInfo::NativeToken { denom: funds[i].denom.clone() }, amount: funds[i].amount });
        assert(out@ =~= as_assets(funds@.take(i + 1)));
        i = i + 1;
    }
    assert(funds@.take(funds.len() as int) =~= funds@);
    Ok(out)
}

impl DiscountVault {
    /// A new vault owned by `owner` (else the sender) that accepts the LPs
    /// of `pools`, each of which must hold the debt token; where some do
    /// not, the error names the last of them.
    pub fn instantiate(owner: Option<String>, sender: String, positions_contract: String, osmosis_proxy: String,
        pools: &Vec<PoolState>, debt_denom: &String) -> (r: Result<DiscountVault, VaultError>)
        ensures
            (forall|k: int| 0 <= k < pools@.len() ==> holds_debt_token(#[trigger] pools@[k], debt_denom@)) ==> (r matches Ok(v) && {
                &&& v.wf()
                &&& v.users@.len() == 0
                &&& v.ownership_transfer is None
                &&& v.config.owner == (match owner { Some(o) => o, None => sender })
                &&& v.config.positions_contract == positions_contract
                &&& v.config.osmosis_proxy == osmosis_proxy
                &&& v.config.accepted_LPs@ == pools@.map_values(|p: PoolState| lp_of(p))
                &&& v.config.deposits_enabled
            }),
            !(forall|k: int| 0 <= k < pools@.len() ==> holds_debt_token(#[trigger] pools@[k], debt_denom@)) ==> (r matches Err(
                VaultError::LPWithoutDebtToken { pool_id }) && exists|k: int| 0 <= k < pools@.len()
                    && pools@[k].pool_id == pool_id && !holds_debt_token(#[trigger] pools@[k], debt_denom@)
                    && forall|j: int| k < j < pools@.len() ==> holds_debt_token(#[trigger] pools@[j], debt_denom@)),
    {
        let mut accepted: Vec<LPPoolInfo> = Vec::new();
        let mut failed: Option<u64> = None;
        let ghost mut failed_at: int = -1;
        let mut i: usize = 0;
        while i < pools.len()
            invariant
                i <= pools.len(),
                failed is None <==> forall|k: int| 0 <= k < i ==> holds_debt_token(#[trigger] pools@[k], debt_denom@),
                failed is None ==> accepted@ == pools@.take(i as int).map_values(|p: PoolState| lp_of(p)),
                failed matches Some(id) ==> 0 <= failed_at < i && pools@[failed_at].pool_id == id
                    && !holds_debt_token(pools@[failed_at], debt_denom@)
                    && forall|j: int| failed_at < j < i ==> holds_debt_token(#[trigger] pools@[j], debt_denom@),
            decreases pools.len() - i,
        {
            match create_and_validate_LP_object(&pools[i], debt_denom) {
                Ok(lp) => {
                    accepted.push(lp);
                    assert(failed is None ==> accepted@ =~= pools@.take(i + 1).map_values(|p: PoolState| lp_of(p)));
                },
                Err(_) => {
                    failed = Some(pools[i].pool_id);
                    proof { failed_at = i as int; }
                },
            }
            i = i + 1;
        }
        if let Some(pool_id) = failed {
            return Err(VaultError::LPWithoutDebtToken { pool_id });
        }
        assert(pools@.take(pools.len() as int) =~= pools@);
        let v = DiscountVault {
            config: Config {
                owner: match owner { Some(o) => o, None => sender },
                positions_contract,
                osmosis_proxy,
                accepted_LPs: accepted,
                deposits_enabled: true,
            },
            users: Vec::new(),
            ownership_transfer: None,
        };
        assert(user_keys(v.users_spec()) =~= Seq::<Seq<char>>::empty());
        Ok(v)
    }

    /// Vault the funds `funds` of `sender` at time `now`, while deposits are
    /// switched on: each must be an accepted LP share token. Answers the
    /// funds as assets.
    pub fn deposit(&mut self, sender: &String, funds: &Vec<Coin>, now: u64) -> (r: Result<Vec<Asset>, VaultError>)
        requires
            old(self).wf(),
        ensures
            final(self).wf(),
            final(self).config == old(self).config,
            final(self).ownership_transfer == old(self).ownership_transfer,
            !old(self).config.deposits_enabled
                ==> (r matches Err(VaultError::DepositsDisabled) && final(self).users_spec() == old(self).users_spec()),
            old(self).config.deposits_enabled
                && (forall|k: int| 0 <= k < funds@.len() ==> accepts(old(self).config.accepted_LPs@, (#[trigger] funds@[k]).denom@))
                ==> (r matches Ok(v) && v@ == as_assets(funds@) && user_saved(old(self).users_spec(), final(self).users_spec(),
                    sender@, deposits_of(old(self).users_spec(), sender@) + as_deposits(funds@, now))),
            old(self).config.deposits_enabled
                && !(forall|k: int| 0 <= k < funds@.len() ==> accepts(old(self).config.accepted_LPs@, (#[trigger] funds@[k]).denom@))
                ==> (r matches Err(VaultError::InvalidAsset) && final(self).users_spec() == old(self).users_spec()),
    {
        if !self.config.deposits_enabled {
            return Err(VaultError::DepositsDisabled);
        }
        let assets = validate_assets(funds, &self.config.accepted_LPs)?;
        let ghost us = self.users_spec();
        proof { lemma_user_index(us, sender@); }
        let mut lps = match find_user(&self.users, sender) {
            Some(i) => {
                assert(self.users@[i as int].vaulted_lps@ == us[i as int].1);
                copy_lps(&self.users[i].vaulted_lps)
            },
            None => Vec::new(),
        };
        let ghost base = lps@;
        assert(base == deposits_of(us, sender@));
        let mut i: usize = 0;
        while i < funds.len()
            invariant
                i <= funds.len(),
                lps@ == base + as_deposits(funds@.take(i as int), now),
            decreases funds.len() - i,
        {
            lps.push(VaultedLP { gamm: AssetInfo::NativeToken { denom: funds[i].denom.clone() }, amount: funds[i].amount,
                deposit_time: now });
            assert(lps@ =~= base + as_deposits(funds@.take(i + 1), now));
            i = i + 1;
        }
        assert(funds@.take(funds.len() as int) =~= funds@);
        save_user(&mut self.users, sender.clone(), lps);
        Ok(assets)
    }

    /// Withdraw `withdrawal_assets` for `sender`: assets of which they hold
    /// no deposit are dropped; each remaining one is taken from their
    /// deposits in order. Answers the assets withdrawn.
    pub fn withdraw(&mut self, sender: &String, withdrawal_assets: &Vec<Asset>) -> (r: Result<Vec<Asset>, VaultError>)
        requires
            old(self).wf(),
        ensures
            final(self).wf(),
            final(self).config == old(self).config,
            final(self).ownership_transfer == old(self).ownership_transfer,
            r is Err ==> final(self).users_spec() == old(self).users_spec(),
            match user_index(old(self).users_spec(), sender@) {
                None => r matches Err(VaultError::UserNotFound),
                Some(i) => {
                    let ds = old(self).users_spec()[i].1;
                    let owned = owned_assets(ds, withdrawal_assets@);
                    match withdraw_all(ds, owned) {
                        Err(a) => r matches Err(VaultError::InvalidWithdrawal { val }) && val == a,
                        Ok(d) => r matches Ok(v) && v@ == owned
                            && final(self).users_spec() == old(self).users_spec().update(i, (sender@, d)),
                    }
                },
            },
    {
        let ghost us = self.users_spec();
        proof { lemma_user_index(us, sender@); }
        let idx = match find_user(&self.users, sender) {
            Some(i) => i,
            None => return Err(VaultError::UserNotFound),
        };
        let mut ds = copy_lps(&self.users[idx].vaulted_lps);
        let ghost d0 = ds@;
        assert(d0 == us[idx as int].1);
        let owned = owned_list(&ds, withdrawal_assets);
        let mut j: usize = 0;
        assert(owned@.take(0) =~= Seq::<Asset>::empty());
        while j < owned.len()
            invariant
                j <= owned.len(),
                withdraw_all(d0, owned@.take(j as int)) == Ok::<Seq<VaultedLP>, Asset>(ds@),
                owned@ == owned_assets(d0, withdrawal_assets@),
                d0 == us[idx as int].1,
                us == self.users_spec(),
                *self == *old(self),
                old(self).wf(),
                user_index(us, sender@) == Some(idx as int),
            decreases owned.len() - j,
        {
            assert(owned@.take(j + 1).drop_last() =~= owned@.take(j as int));
            let rem = take_asset(&mut ds, &owned[j]);
            if rem != 0 {
                proof { lemma_withdraw_prefix(d0, owned@, j + 1); }
                return Err(VaultError::InvalidWithdrawal { val: owned[j].copy() });
            }
            j = j + 1;
        }
        assert(owned@.take(owned.len() as int) =~= owned@);
        let ghost dv = ds@;
        let name = self.users[idx].user.clone();
        self.users.set(idx, VaultUser { user: name, vaulted_lps: ds });
        assert(self.users_spec() =~= us.update(idx as int, (sender@, dv)));
        assert(user_keys(self.users_spec()) =~= user_keys(us));
        Ok(owned)
    }

    /// Offer the ownership to `owner`; the owner may, and so may the
    /// address the ownership was offered to, which then becomes the owner.
    pub fn change_owner(&mut self, sender: &String, owner: String) -> (r: Result<(), VaultError>)
        ensures
            final(self).users == old(self).users,
            final(self).config.accepted_LPs == old(self).config.accepted_LPs,
            final(self).config.positions_contract == old(self).config.positions_contract,
            final(self).config.osmosis_proxy == old(self).config.osmosis_proxy,
            final(self).config.deposits_enabled == old(self).config.deposits_enabled,
            r is Err ==> final(self).config.owner == old(self).config.owner
                && final(self).ownership_transfer == old(self).ownership_transfer,
            if sender@ == old(self).config.owner@ {
                r is Ok && final(self).config.owner == old(self).config.owner && final(self).ownership_transfer == Some(owner)
            } else {
                match old(self).ownership_transfer {
                    None => r matches Err(VaultError::NoOwnershipTransfer),
                    Some(t) => if sender@ == t@ {
                        r is Ok && final(self).config.owner@ == sender@ && final(self).ownership_transfer == Some(owner)
                    } else {
                        r matches Err(VaultError::Unauthorized)
                    },
                }
            },
    {
        if *sender != self.config.owner {
            let accepted = match &self.ownership_transfer {
                Some(t) => *sender == *t,
                None => return Err(VaultError::NoOwnershipTransfer),
            };
            if !accepted {
                return Err(VaultError::Unauthorized);
            }
            self.config.owner = sender.clone();
        }
        self.ownership_transfer = Some(owner);
        Ok(())
    }

    /// Remove accepted LPs by pool id, or add the LPs of pools that hold the
    /// debt token; only the owner may.
    pub fn edit_LPs(&mut self, sender: &String, edit: LpEdit) -> (r: Result<(), VaultError>)
        ensures
            final(self).users == old(self).users,
            final(self).ownership_transfer == old(self).ownership_transfer,
            final(self).config.owner == old(self).config.owner,
            final(self).config.positions_contract == old(self).config.positions_contract,
            final(self).config.osmosis_proxy == old(self).config.osmosis_proxy,
            final(self).config.deposits_enabled == old(self).config.deposits_enabled,
            r is Err ==> final(self).config.accepted_LPs@ == old(self).config.accepted_LPs@,
            sender@ != old(self).config.owner@ ==> r matches Err(VaultError::Unauthorized),
            sender@ == old(self).config.owner@ ==> match edit {
                LpEdit::Remove { pool_ids } => r is Ok
                    && final(self).config.accepted_LPs@ == without_pools(old(self).config.accepted_LPs@, pool_ids@),
                LpEdit::Add { pools, debt_denom } =>
                    if forall|k: int| 0 <= k < pools@.len() ==> holds_debt_token(#[trigger] pools@[k], debt_denom@) {
                        r is Ok && final(self).config.accepted_LPs@
                            == old(self).config.accepted_LPs@ + pools@.map_values(|p: PoolState| lp_of(p))
                    } else {
                        r matches Err(VaultError::LPWithoutDebtToken { pool_id }) && exists|k: int| 0 <= k < pools@.len()
                            && pools@[k].pool_id == pool_id && !holds_debt_token(#[trigger] pools@[k], debt_denom@)
                            && forall|j: int| 0 <= j < k ==> holds_debt_token(#[trigger] pools@[j], debt_denom@)
                    },
            },
    {
        if *sender != self.config.owner {
            return Err(VaultError::Unauthorized);
        }
        match edit {
            LpEdit::Remove { pool_ids } => {
                let mut i: usize = 0;
                assert(pool_ids@.take(0) =~= Seq::<u64>::empty());
                while i < pool_ids.len()
                    invariant
                        i <= pool_ids.len(),
                        self.config.accepted_LPs@ == without_pools(old(self).config.accepted_LPs@, pool_ids@.take(i as int)),
                        self.users == old(self).users,
                        self.ownership_transfer == old(self).ownership_transfer,
                        self.config.owner == old(self).config.owner,
                        self.config.positions_contract == old(self).config.positions_contract,
                        self.config.osmosis_proxy == old(self).config.osmosis_proxy,
                        self.config.deposits_enabled == old(self).config.deposits_enabled,
                    decreases pool_ids.len() - i,
                {
                    assert(pool_ids@.take(i + 1).drop_last() =~= pool_ids@.take(i as int));
                    let ghost l = self.config.accepted_LPs@;
                    proof { lemma_first_pool(l, pool_ids@[i as int]); }
                    let mut k: usize = 0;
                    while k < self.config.accepted_LPs.len()
                        invariant
                            k <= self.config.accepted_LPs.len(),
                            i < pool_ids.len(),
                            l == self.config.accepted_LPs@,
                            forall|j: int| 0 <= j < k ==> l[j].pool_id != pool_ids@[i as int],
                        ensures
                            k <= self.config.accepted_LPs.len(),
                            i < pool_ids.len(),
                            l == self.config.accepted_LPs@,
                            forall|j: int| 0 <= j < k ==> l[j].pool_id != pool_ids@[i as int],
                            k < self.config.accepted_LPs.len() ==> l[k as int].pool_id == pool_ids@[i as int],
                        decreases self.config.accepted_LPs.len() - k,
                    {
                        if self.config.accepted_LPs[k].pool_id == pool_ids[i] {
                            break;
                        }
                        k = k + 1;
                    }
                    if k < self.config.accepted_LPs.len() {
                        assert(first_pool(l, pool_ids@[i as int]) == Some(k as int));
                        self.config.accepted_LPs.remove(k);
                    } else {
                        assert(first_pool(l, pool_ids@[i as int]) is None);
                    }
                    i = i + 1;
                }
                assert(pool_ids@.take(pool_ids.len() as int) =~= pool_ids@);
                Ok(())
            },
            LpEdit::Add { pools, debt_denom } => {
                let added = validated_pools(&pools, &debt_denom)?;
                let ghost before = self.config.accepted_LPs@;
                let mut k: usize = 0;
                while k < added.len()
                    invariant
                        k <= added.len(),
                        self.config.accepted_LPs@ == before + added@.take(k as int),
                        self.users == old(self).users,
                        self.ownership_transfer == old(self).ownership_transfer,
                        self.config.owner == old(self).config.owner,
                        self.config.positions_contract == old(self).config.positions_contract,
                        self.config.osmosis_proxy == old(self).config.osmosis_proxy,
                        self.config.deposits_enabled == old(self).config.deposits_enabled,
                    decreases added.len() - k,
                {
                    self.config.accepted_LPs.push(added[k].copy());
                    assert(self.config.accepted_LPs@ =~= before + added@.take(k + 1));
                    k = k + 1;
                }
                assert(added@.take(added.len() as int) =~= added@);
                Ok(())
            },
        }
    }

    /// Enable or disable deposits; only the owner may.
    pub fn toggle_deposits(&mut self, sender: &String, enable: bool) -> (r: Result<(), VaultError>)
        ensures
            final(self).users == old(self).users,
            final(self).ownership_transfer == old(self).ownership_transfer,
            sender@ != old(self).config.owner@ ==> (r matches Err(VaultError::Unauthorized) && final(self).config == old(self).config),
            sender@ == old(self).config.owner@ ==> r is Ok
                && final(self).config == (Config { deposits_enabled: enable, ..old(self).config }),
    {
        if *sender != self.config.owner {
            return Err(VaultError::Unauthorized);
        }
        self.config.deposits_enabled = enable;
        Ok(())
    }
}

/// The assets of which some deposit of `ds` is held, in order.
fn owned_list(ds: &Vec<VaultedLP>, assets: &Vec<Asset>) -> (r: Vec<Asset>)
    ensures
        r@ == owned_assets(ds@, assets@),
{
    let ghost pred = |a: Asset| owns(ds@, a.info);
    let mut out: Vec<Asset> = Vec::new();
    let mut i: usize = 0;
    assert(assets@.take(0).filter(pred) =~= Seq::<Asset>::empty());
    while i < assets.len()
        invariant
            i <= assets.len(),
            pred == (|a: Asset| owns(ds@, a.info)),
            out@ == assets@.take(i as int).filter(pred),
        decreases assets.len() - i,
    {
        proof {
            assert(assets@.take(i + 1) =~= assets@.take(i as int).push(assets@[i as int]));
            assets@.take(i as int).lemma_filter_push(assets@[i as int], pred);
        }
        let mut k: usize = 0;
        let mut found = false;
        while k < ds.len() && !found
            invariant
                k <= ds.len(),
                i < assets.len(),
                found ==> owns(ds@, assets@[i as int].info),
                !found ==> forall|j: int| 0 <= j < k ==> !(#[trigger] ds@[j]).gamm.same(&assets@[i as int].info),
            decreases ds.len() - k,
        {
            if ds[k].gamm.equal(&assets[i].info) {
                found = true;
                assert(ds@[k as int].gamm.same(&assets@[i as int].info));
            }
            k = k + 1;
        }
        if found {
            out.push(assets[i].copy());
        }
        i = i + 1;
    }
    assert(assets@.take(assets.len() as int) =~= assets@);
    out
}

/// Take asset `a` from the deposits (see `take_from`); answers what could
/// not be taken.
fn take_asset(ds: &mut Vec<VaultedLP>, a: &Asset) -> (rem: u128)
    ensures
        take_from(old(ds)@, a.info, a.amount as nat) == (final(ds)@, rem as nat),
{
    let ghost d0 = ds@;
    let mut rem: u128 = a.amount;
    let mut i: usize = 0;
    assert(d0.take(0) =~= Seq::<VaultedLP>::empty());
    while i < ds.len()
        invariant
            i <= ds.len(),
            ds@.len() == d0.len(),
            take_from(d0.take(i as int), a.info, a.amount as nat) == (ds@.take(i as int), rem as nat),
            forall|j: int| i <= j < d0.len() ==> ds@[j] == d0[j],
        decreases ds.len() - i,
    {
        assert(d0.take(i + 1).drop_last() =~= d0.take(i as int));
        assert(d0.take(i + 1).last() == d0[i as int]);
        let ghost before = ds@;
        if ds[i].gamm.equal(&a.info) && rem != 0 {
            let mut d = ds[i].copy();
            if rem >= d.amount {
                rem = rem - d.amount;
                d.amount = 0;
            } else {
                d.amount = d.amount - rem;
                rem = 0;
            }
            ds.set(i, d);
        }
        assert(ds@.take(i + 1) =~= before.take(i as int).push(ds@[i as int]));
        i = i + 1;
    }
    assert(d0.take(d0.len() as int) =~= d0);
    assert(ds@.take(ds@.len() as int) =~= ds@);
    rem
}

/// The LPs of the pools, each of which must hold the debt token; else the
/// error names the first that does not.
fn validated_pools(pools: &Vec<PoolState>, debt_denom: &String) -> (r: Result<Vec<LPPoolInfo>, VaultError>)
    ensures
        (forall|k: int| 0 <= k < pools@.len() ==> holds_debt_token(#[trigger] pools@[k], debt_denom@))
            ==> (r matches Ok(v) && v@ == pools@.map_values(|p: PoolState| lp_of(p))),
        !(forall|k: int| 0 <= k < pools@.len() ==> holds_debt_token(#[trigger] pools@[k], debt_denom@))
            ==> (r matches Err(VaultError::LPWithoutDebtToken { pool_id }) && exists|k: int| 0 <= k < pools@.len()
                && pools@[k].pool_id == pool_id && !holds_debt_token(#[trigger] pools@[k], debt_denom@)
                && forall|j: int| 0 <= j < k ==> holds_debt_token(#[trigger] pools@[j], debt_denom@)),
{
    let mut added: Vec<LPPoolInfo> = Vec::new();
    let mut i: usize = 0;
    while i < pools.len()
        invariant
            i <= pools.len(),
            forall|k: int| 0 <= k < i ==> holds_debt_token(#[trigger] pools@[k], debt_denom@),
            added@ == pools@.take(i as int).map_values(|p: PoolState| lp_of(p)),
        decreases pools.len() - i,
    {
        match create_and_validate_LP_object(&pools[i], debt_denom) {
            Ok(lp) => {
                added.push(lp);
                assert(added@ =~= pools@.take(i + 1).map_values(|p: PoolState| lp_of(p)));
            },
            Err(e) => {
                assert(!holds_debt_token(pools@[i as int], debt_denom@));
                return Err(e);
            },
        }
        i = i + 1;
    }
    assert(pools@.take(pools.len() as int) =~= pools@);
    Ok(added)
}

/// Once a prefix of the withdrawals fails, all of them fail alike.
proof fn lemma_withdraw_prefix(ds: Seq<VaultedLP>, assets: Seq<Asset>, k: int)
    requires
        0 <= k <= assets.len(),
        withdraw_all(ds, assets.take(k)) is Err,
    ensures
        withdraw_all(ds, assets) == withdraw_all(ds, assets.take(k)),
    decreases assets.len() - k,
{
    if k < assets.len() {
        assert(assets.take(k + 1).drop_last() =~= assets.take(k));
        lemma_withdraw_prefix(ds, assets, k + 1);
    } else {
        assert(assets.take(k) =~= assets);
    }
}

} // verus!
