//! The liquidity check: for each collateral asset, the AMM pools that hold
//! it, and the amount of it pooled there, stableswap pools weighted by a
//! multiplier.
use vstd::prelude::*;
use crate::keys::{key_lt, key_index, lemma_key_index, lemma_key_index_prefix, keys_sorted, insert_position,
    lemma_sorted_insert, lemma_sorted_remove, lemma_key_order, label_lt};
use crate::math::u128_limit;
use crate::decimal::{dmul, uint_mul_decimal, uint128_from_str, parse_uint128};
use crate::emissions_voting::queries::lemma_filter_prefix;
use crate::governance::queries::first_n;
use crate::liq_queue::types::AssetInfo;

verus! {

/// Assets listed when no limit is given.
pub const MAX_LIMIT: u64 = 31;

/// The weight of a stableswap pool at instantiation: 10 (as decimal atomics).
pub const DEFAULT_STABLESWAP_MULTIPLIER: u128 = 10_000_000_000_000_000_000;

/// An AMM pool, by kind.
#[derive(Clone, Copy, PartialEq, Eq, Structural, Debug)]
pub enum PoolType {
    Balancer { pool_id: u64 },
    StableSwap { pool_id: u64 },
}

/// An asset and the pools that hold it.
#[derive(Debug)]
pub struct LiquidityInfo {
    pub asset: AssetInfo,
    pub pool_infos: Vec<PoolType>,
}

/// A coin of a pool's state as queried: its denom and amount as text.
#[derive(Debug)]
pub struct PoolCoin {
    pub denom: String,
    pub amount: String,
}

/// The configuration; the stableswap multiplier is a decimal by its atomics.
#[derive(Debug)]
pub struct Config {
    pub owner: String,
    pub osmosis_proxy: String,
    pub positions_contract: String,
    pub stableswap_multiplier: u128,
}

/// The contract: its configuration and the assets in the key order of their
/// address or denom.
pub struct LiquidityCheck {
    pub config: Config,
    pub assets: Vec<LiquidityInfo>,
}

/// Why an operation of the liquidity check was refused.
#[derive(Debug)]
pub enum LcError {
    Unauthorized,
    /// The asset is already listed.
    DuplicateAsset,
    /// The asset is not listed.
    AssetNotFound,
    /// A pool of the asset does not hold it.
    NotInPool { denom: String },
    /// A pooled amount is not a number.
    InvalidAmount,
    /// The pool states given do not match the asset's pools.
    QueryFailed,
    /// An amount did not fit its integer type.
    Overflow,
}

/// The assets as (key, info) pairs.
pub open spec fn assets_view(v: Seq<LiquidityInfo>) -> Seq<(Seq<char>, (AssetInfo, Seq<PoolType>))> {
    v.map_values(|a: LiquidityInfo| (a.asset.key(), (a.asset, a.pool_infos@)))
}

/// The keys of the assets.
pub open spec fn asset_keys(v: Seq<(Seq<char>, (AssetInfo, Seq<PoolType>))>) -> Seq<Seq<char>> {
    v.map_values(|a: (Seq<char>, (AssetInfo, Seq<PoolType>))| a.0)
}

/// The index of the asset under `key`.
pub open spec fn asset_index(v: Seq<(Seq<char>, (AssetInfo, Seq<PoolType>))>, key: Seq<char>) -> Option<int> {
    key_index(asset_keys(v), key)
}

proof fn lemma_asset_index(v: Seq<(Seq<char>, (AssetInfo, Seq<PoolType>))>, key: Seq<char>)
    ensures
        asset_index(v, key) matches Some(i) ==> 0 <= i < v.len() && v[i].0 == key,
        asset_index(v, key) is None ==> forall|j: int| 0 <= j < v.len() ==> v[j].0 != key,
{
    lemma_key_index(asset_keys(v), key);
    if asset_index(v, key) is None {
        assert forall|j: int| 0 <= j < v.len() implies v[j].0 != key by {
            assert(asset_keys(v)[j] == v[j].0);
        }
    }
}

/// The weight of a pool: 1 for a balancer pool, the multiplier for a
/// stableswap pool (as decimal atomics).
pub open spec fn pool_weight(p: PoolType, stableswap_multiplier: u128) -> u128 {
    match p {
        PoolType::Balancer { .. } => 1_000_000_000_000_000_000u128,
        PoolType::StableSwap { .. } => stableswap_multiplier,
    }
}

/// The id of a pool.
pub open spec fn pool_id_of(p: PoolType) -> u64 {
    match p {
        PoolType::Balancer { pool_id } => pool_id,
        PoolType::StableSwap { pool_id } => pool_id,
    }
}

/// The index of the first coin of `denom`.
pub open spec fn coin_index(coins: Seq<PoolCoin>, denom: Seq<char>) -> Option<int>
    decreases coins.len(),
{
    if coins.len() == 0 {
        None
    } else {
        match coin_index(coins.drop_last(), denom) {
            Some(k) => Some(k),
            None => if coins.last().denom@ == denom { Some(coins.len() - 1) } else { None },
        }
    }
}

/// Why a pool state gives no amount.
#[derive(Clone, Copy, PartialEq, Eq, Structural, Debug)]
pub enum PoolFault {
    /// The pool does not hold the asset.
    Missing,
    /// The pooled amount is not a number.
    Unparsable,
}

/// The pooled amounts of `denom` in each of the pool states, as parsed;
/// else what is wrong with the first pool that lacks it or whose amount
/// does not parse.
pub open spec fn pooled_amounts(states: Seq<Seq<PoolCoin>>, denom: Seq<char>) -> Result<Seq<u128>, PoolFault>
    decreases states.len(),
{
    if states.len() == 0 {
        Ok(Seq::empty())
    } else {
        match pooled_amounts(states.drop_last(), denom) {
            Err(e) => Err(e),
            Ok(a) => match coin_index(states.last(), denom) {
                None => Err(PoolFault::Missing),
                Some(k) => match uint128_from_str(states.last()[k].amount@) {
                    None => Err(PoolFault::Unparsable),
                    Some(v) => Ok(a.push(v)),
                },
            },
        }
    }
}

/// The weighted sum of the amounts, each `amounts[k] * weights[k]` rounded
/// down; `None` where a term or a partial sum does not fit in 128 bits.
pub open spec fn weighted_sum(amounts: Seq<u128>, weights: Seq<u128>) -> Option<nat>
    decreases amounts.len(),
{
    if amounts.len() == 0 {
        Some(0)
    } else {
        let k = amounts.len() - 1;
        match weighted_sum(amounts.drop_last(), weights) {
            None => None,
            Some(s) => {
                let t = dmul(amounts[k] as nat, weights[k] as nat);
                if t >= u128_limit() || s + t >= u128_limit() { None } else { Some(s + t) }
            },
        }
    }
}

/// The assets after `start` (all where there is none), in key order, at
/// most `limit` (31 by default) of them.
pub open spec fn listed_assets(v: Seq<(Seq<char>, (AssetInfo, Seq<PoolType>))>, start: Option<Seq<char>>, limit: Option<u64>)
    -> Seq<(Seq<char>, (AssetInfo, Seq<PoolType>))> {
    first_n(v.filter(|a: (Seq<char>, (AssetInfo, Seq<PoolType>))| start matches Some(s) ==> key_lt(s, a.0)),
        (match limit { Some(l) => l, None => MAX_LIMIT }) as nat)
}

/// The key of the asset to start after, if any.
pub open spec fn start_key_of(start: Option<AssetInfo>) -> Option<Seq<char>> {
    match start {
        Some(s) => Some(s.key()),
        None => None,
    }
}

/// The index of the asset under `key`.
fn find_asset(v: &Vec<LiquidityInfo>, key: &String) -> (r: Option<usize>)
    ensures
        match r {
            Some(i) => asset_index(assets_view(v@), key@) == Some(i as int),
            None => asset_index(assets_view(v@), key@) is None,
        },
{
    let ghost ks = asset_keys(assets_view(v@));
    let mut i: usize = 0;
    while i < v.len()
        invariant
            i <= v.len(),
            ks == asset_keys(assets_view(v@)),
            key_index(ks.take(i as int), key@) is None,
        decreases v.len() - i,
    {
        assert(ks.take(i + 1).drop_last() =~= ks.take(i as int));
        assert(ks.take(i + 1).last() == v@[i as int].asset.key());
        let k = v[i].asset.key_string();
        if k == *key {
            proof { lemma_key_index_prefix(ks, key@, i as int); }
            return Some(i);
        }
        i = i + 1;
    }
    assert(ks.take(v.len() as int) =~= ks);
    None
}

/// A copy of the pools.
fn copy_pools(v: &Vec<PoolType>) -> (r: Vec<PoolType>)
    ensures
        r@ == v@,
{
    let mut out: Vec<PoolType> = Vec::new();
    let mut i: usize = 0;
    while i < v.len()
        invariant
            i <= v.len(),
            out@ == v@.take(i as int),
        decreases v.len() - i,
    {
        out.push(v[i]);
        assert(out@ =~= v@.take(i + 1));
        i = i + 1;
    }
    assert(v@.take(v.len() as int) =~= v@);
    out
}

impl LiquidityInfo {
    pub fn copy(&self) -> (r: LiquidityInfo)
        ensures
            r.asset == self.asset,
            r.pool_infos@ == self.pool_infos@,
    {
        LiquidityInfo { asset: self.asset.copy(), pool_infos: copy_pools(&self.pool_infos) }
    }
}

/// The weighted sum of the pooled amounts (see `weighted_sum`).
pub fn pooled_total(amounts: &Vec<u128>, weights: &Vec<u128>) -> (r: Result<u128, LcError>)
    requires
        weights.len() >= amounts.len(),
    ensures
        match weighted_sum(amounts@, weights@) {
            Some(s) => r == Ok::<u128, LcError>(s as u128),
            None => r matches Err(LcError::Overflow),
        },
{
    let mut total: u128 = 0;
    let mut i: usize = 0;
    while i < amounts.len()
        invariant
            i <= amounts.len(),
            weights.len() >= amounts.len(),
            weighted_sum(amounts@.take(i as int), weights@) == Some(total as nat),
        decreases amounts.len() - i,
    {
        assert(amounts@.take(i + 1).drop_last() =~= amounts@.take(i as int));
        assert(amounts@.take(i + 1)[i as int] == amounts@[i as int]);
        let t = match uint_mul_decimal(amounts[i], weights[i]) {
            Some(t) => t,
            None => {
                proof { lemma_weighted_prefix(amounts@, weights@, i + 1); }
                return Err(LcError::Overflow);
            },
        };
        total = match total.checked_add(t) {
            Some(s) => s,
            None => {
                proof { lemma_weighted_prefix(amounts@, weights@, i + 1); }
                return Err(LcError::Overflow);
            },
        };
        i = i + 1;
    }
    assert(amounts@.take(amounts.len() as int) =~= amounts@);
    Ok(total)
}

proof fn lemma_weighted_prefix(amounts: Seq<u128>, weights: Seq<u128>, k: int)
    requires
        0 <= k <= amounts.len(),
        weighted_sum(amounts.take(k), weights) is None,
    ensures
        weighted_sum(amounts, weights) is None,
    decreases amounts.len() - k,
{
    if k < amounts.len() {
        assert(amounts.take(k + 1).drop_last() =~= amounts.take(k));
        lemma_weighted_prefix(amounts, weights, k + 1);
    } else {
        assert(amounts.take(k) =~= amounts);
    }
}

impl LiquidityCheck {
    /// The assets under their keys.
    pub open spec fn assets_spec(&self) -> Seq<(Seq<char>, (AssetInfo, Seq<PoolType>))> {
        assets_view(self.assets@)
    }

    /// The assets are in key order.
    pub open spec fn wf(&self) -> bool {
        keys_sorted(asset_keys(self.assets_spec()))
    }

    /// Whether `sender` may add and edit assets: the owner or the positions
    /// contract.
    pub open spec fn may_edit(&self, sender: Seq<char>) -> bool {
        sender == self.config.owner@ || sender == self.config.positions_contract@
    }

    /// A new liquidity check with no assets, owned by `owner` (else the
    /// sender), weighting stableswap pools 10 times.
    pub fn instantiate(owner: Option<String>, sender: String, osmosis_proxy: String, positions_contract: String)
        -> (r: LiquidityCheck)
        ensures
            r.wf(),
            r.assets@.len() == 0,
            r.config.owner == (match owner { Some(o) => o, None => sender }),
            r.config.osmosis_proxy == osmosis_proxy,
            r.config.positions_contract == positions_contract,
            r.config.stableswap_multiplier == DEFAULT_STABLESWAP_MULTIPLIER,
    {
        let r = LiquidityCheck {
            config: Config {
                owner: match owner { Some(o) => o, None => sender },
                osmosis_proxy,
                positions_contract,
                stableswap_multiplier: DEFAULT_STABLESWAP_MULTIPLIER,
            },
            assets: Vec::new(),
        };
        assert(asset_keys(r.assets_spec()) =~= Seq::<Seq<char>>::empty());
        r
    }

    /// List `asset`, which must not be listed yet; the owner or the
    /// positions contract may.
    pub fn add_asset(&mut self, sender: &String, asset: LiquidityInfo) -> (r: Result<(), LcError>)
        requires
            old(self).wf(),
        ensures
            final(self).wf(),
            final(self).config == old(self).config,
            r is Err ==> final(self).assets_spec() == old(self).assets_spec(),
            !old(self).may_edit(sender@) ==> r matches Err(LcError::Unauthorized),
            old(self).may_edit(sender@) && asset_index(old(self).assets_spec(), asset.asset.key()) is Some
                ==> r matches Err(LcError::DuplicateAsset),
            old(self).may_edit(sender@) && asset_index(old(self).assets_spec(), asset.asset.key()) is None
                ==> r is Ok && exists|pos: int| 0 <= pos <= old(self).assets_spec().len() && final(self).assets_spec()
                    == old(self).assets_spec().insert(pos, (asset.asset.key(), (asset.asset, asset.pool_infos@))),
    {
        if *sender != self.config.owner && *sender != self.config.positions_contract {
            return Err(LcError::Unauthorized);
        }
        let key = asset.asset.key_string();
        if find_asset(&self.assets, &key).is_some() {
            return Err(LcError::DuplicateAsset);
        }
        self.insert_new(key, asset);
        Ok(())
    }

    /// Insert `asset`, listed under `key`, which is not listed yet.
    fn insert_new(&mut self, key: String, asset: LiquidityInfo)
        requires
            old(self).wf(),
            key@ == asset.asset.key(),
            asset_index(old(self).assets_spec(), key@) is None,
        ensures
            final(self).wf(),
            final(self).config == old(self).config,
            exists|pos: int| 0 <= pos <= old(self).assets_spec().len() && final(self).assets_spec()
                == old(self).assets_spec().insert(pos, (asset.asset.key(), (asset.asset, asset.pool_infos@))),
    {
        let ghost before = self.assets_spec();
        let ghost ks = asset_keys(before);
        let ghost entry = (asset.asset.key(), (asset.asset, asset.pool_infos@));
        proof { lemma_asset_index(before, key@); }
        let mut pos: usize = 0;
        while pos < self.assets.len()
            invariant
                pos <= self.assets.len(),
                ks == asset_keys(assets_view(self.assets@)),
                keys_sorted(ks),
                forall|j: int| 0 <= j < ks.len() ==> ks[j] != key@,
                forall|j: int| 0 <= j < pos ==> key_lt(#[trigger] ks[j], key@),
            ensures
                pos <= self.assets.len(),
                ks == asset_keys(assets_view(self.assets@)),
                forall|j: int| 0 <= j < pos ==> key_lt(#[trigger] ks[j], key@),
                pos < self.assets.len() ==> key_lt(key@, ks[pos as int]),
            decreases self.assets.len() - pos,
        {
            assert(ks[pos as int] == self.assets@[pos as int].asset.key());
            proof { lemma_key_order(ks[pos as int], key@, key@); }
            let k = self.assets[pos].asset.key_string();
            if label_lt(&key, &k) {
                break;
            }
            pos = pos + 1;
        }
        proof {
            assert forall|j: int| pos <= j < ks.len() implies key_lt(key@, #[trigger] ks[j]) by {
                if j > pos {
                    lemma_key_order(key@, ks[pos as int], ks[j]);
                }
            }
            assert(insert_position(ks, key@, pos as int));
            lemma_sorted_insert(ks, key@, pos as int);
        }
        self.assets.insert(pos, asset);
        proof {
            assert(self.assets_spec() =~= before.insert(pos as int, entry));
            assert(asset_keys(self.assets_spec()) =~= ks.insert(pos as int, key@));
        }
    }

    /// Add the pools of `asset` to those of the listed asset, or list it
    /// where it is not; the owner or the positions contract may.
    pub fn edit_asset(&mut self, sender: &String, asset: LiquidityInfo) -> (r: Result<(), LcError>)
        requires
            old(self).wf(),
        ensures
            final(self).wf(),
            final(self).config == old(self).config,
            !old(self).may_edit(sender@) ==> (r matches Err(LcError::Unauthorized)
                && final(self).assets_spec() == old(self).assets_spec()),
            old(self).may_edit(sender@) ==> r is Ok && match asset_index(old(self).assets_spec(), asset.asset.key()) {
                Some(i) => final(self).assets_spec() == old(self).assets_spec().update(i, (asset.asset.key(),
                    (old(self).assets_spec()[i].1.0, old(self).assets_spec()[i].1.1 + asset.pool_infos@))),
                None => exists|pos: int| 0 <= pos <= old(self).assets_spec().len() && final(self).assets_spec()
                    == old(self).assets_spec().insert(pos, (asset.asset.key(), (asset.asset, asset.pool_infos@))),
            },
    {
        if *sender != self.config.owner && *sender != self.config.positions_contract {
            return Err(LcError::Unauthorized);
        }
        let key = asset.asset.key_string();
        let ghost before = self.assets_spec();
        proof { lemma_asset_index(before, key@); }
        match find_asset(&self.assets, &key) {
            Some(i) => {
                let mut stored = self.assets[i].copy();
                let mut k: usize = 0;
                let ghost base = stored.pool_infos@;
                let ghost sa = stored.asset;
                assert(sa.key() == key@);
                while k < asset.pool_infos.len()
                    invariant
                        k <= asset.pool_infos.len(),
                        stored.asset == sa,
                        stored.pool_infos@ == base + asset.pool_infos@.take(k as int),
                    decreases asset.pool_infos.len() - k,
                {
                    stored.pool_infos.push(asset.pool_infos[k]);
                    assert(stored.pool_infos@ =~= base + asset.pool_infos@.take(k + 1));
                    k = k + 1;
                }
                assert(asset.pool_infos@.take(asset.pool_infos.len() as int) =~= asset.pool_infos@);
                let ghost sv = (stored.asset.key(), (stored.asset, stored.pool_infos@));
                self.assets.set(i, stored);
                proof {
                    assert(self.assets_spec() =~= before.update(i as int, sv));
                    assert(asset_keys(self.assets_spec()) =~= asset_keys(before));
                }
            },
            None => {
                self.insert_new(key, asset);
            },
        }
        Ok(())
    }

    /// Stop listing `asset`; only the owner may.
    pub fn remove_asset(&mut self, sender: &String, asset: &AssetInfo) -> (r: Result<(), LcError>)
        requires
            old(self).wf(),
        ensures
            final(self).wf(),
            final(self).config == old(self).config,
            sender@ != old(self).config.owner@ ==> (r matches Err(LcError::Unauthorized)
                && final(self).assets_spec() == old(self).assets_spec()),
            sender@ == old(self).config.owner@ ==> r is Ok && match asset_index(old(self).assets_spec(), asset.key()) {
                Some(i) => final(self).assets_spec() == old(self).assets_spec().remove(i),
                None => final(self).assets_spec() == old(self).assets_spec(),
            },
    {
        if *sender != self.config.owner {
            return Err(LcError::Unauthorized);
        }
        let key = asset.key_string();
        let ghost before = self.assets_spec();
        proof { lemma_asset_index(before, key@); }
        if let Some(i) = find_asset(&self.assets, &key) {
            let _gone = self.assets.remove(i);
            proof {
                assert(self.assets_spec() =~= before.remove(i as int));
                assert(asset_keys(self.assets_spec()) =~= asset_keys(before).remove(i as int));
                lemma_sorted_remove(asset_keys(before), i as int);
            }
        }
        Ok(())
    }

    /// Update the configuration; only the owner may.
    pub fn update_config(&mut self, sender: &String, owner: Option<String>, osmosis_proxy: Option<String>,
        positions_contract: Option<String>, stableswap_multiplier: Option<u128>) -> (r: Result<(), LcError>)
        ensures
            final(self).assets == old(self).assets,
            sender@ != old(self).config.owner@ ==> (r matches Err(LcError::Unauthorized) && final(self).config == old(self).config),
            sender@ == old(self).config.owner@ ==> r is Ok
                && final(self).config.owner == (match owner { Some(x) => x, None => old(self).config.owner })
                && final(self).config.osmosis_proxy == (match osmosis_proxy { Some(x) => x, None => old(self).config.osmosis_proxy })
                && final(self).config.positions_contract
                    == (match positions_contract { Some(x) => x, None => old(self).config.positions_contract })
                && final(self).config.stableswap_multiplier
                    == (match stableswap_multiplier { Some(x) => x, None => old(self).config.stableswap_multiplier }),
    {
        if *sender != self.config.owner {
            return Err(LcError::Unauthorized);
        }
        if let Some(x) = owner { self.config.owner = x; }
        if let Some(x) = osmosis_proxy { self.config.osmosis_proxy = x; }
        if let Some(x) = positions_contract { self.config.positions_contract = x; }
        if let Some(x) = stableswap_multiplier { self.config.stableswap_multiplier = x; }
        Ok(())
    }

    /// The listed asset `asset`; or, where none is named, the assets after
    /// `start_after` in key order, at most `limit` (31 by default).
    pub fn get_assets(&self, asset: Option<AssetInfo>, limit: Option<u64>, start_after: Option<AssetInfo>)
        -> (r: Result<Vec<LiquidityInfo>, LcError>)
        ensures
            match asset {
                Some(a) => match asset_index(self.assets_spec(), a.key()) {
                    None => r matches Err(LcError::AssetNotFound),
                    Some(i) => r matches Ok(v) && assets_view(v@) == seq![self.assets_spec()[i]],
                },
                None => r matches Ok(v) && assets_view(v@) == listed_assets(self.assets_spec(),
                    start_key_of(start_after), limit),
            },
    {
        let ghost av = self.assets_spec();
        if let Some(a) = asset {
            let key = a.key_string();
            proof { lemma_asset_index(av, key@); }
            return match find_asset(&self.assets, &key) {
                Some(i) => {
                    let mut out: Vec<LiquidityInfo> = Vec::new();
                    out.push(self.assets[i].copy());
                    assert(assets_view(out@) =~= seq![av[i as int]]);
                    Ok(out)
                },
                None => Err(LcError::AssetNotFound),
            };
        }
        let ghost start = start_key_of(start_after);
        let ghost pred = |x: (Seq<char>, (AssetInfo, Seq<PoolType>))| start matches Some(s) ==> key_lt(s, x.0);
        let start_key = match &start_after { Some(s) => Some(s.key_string()), None => None };
        let n: u64 = match limit { Some(l) => l, None => MAX_LIMIT };
        let mut out: Vec<LiquidityInfo> = Vec::new();
        let mut count: u64 = 0;
        let mut i: usize = 0;
        assert(av.take(0).filter(pred) =~= Seq::<(Seq<char>, (AssetInfo, Seq<PoolType>))>::empty());
        assert(assets_view(out@) =~= av.take(0).filter(pred));
        while i < self.assets.len() && count < n
            invariant
                i <= self.assets.len(),
                count == out@.len(),
                count <= n,
                n == (match limit { Some(l) => l, None => MAX_LIMIT }),
                av == self.assets_spec(),
                match start { Some(s) => start_key matches Some(k) && k@ == s, None => start_key is None },
                pred == (|x: (Seq<char>, (AssetInfo, Seq<PoolType>))| start matches Some(s) ==> key_lt(s, x.0)),
                assets_view(out@) == av.take(i as int).filter(pred),
            decreases self.assets.len() - i,
        {
            proof {
                assert(av.take(i + 1) =~= av.take(i as int).push(av[i as int]));
                av.take(i as int).lemma_filter_push(av[i as int], pred);
            }
            let k = self.assets[i].asset.key_string();
            let keep = match &start_key {
                Some(s) => label_lt(s, &k),
                None => true,
            };
            if keep {
                let ghost before = assets_view(out@);
                out.push(self.assets[i].copy());
                assert(assets_view(out@) =~= before.push(av[i as int]));
                count = count + 1;
            }
            i = i + 1;
        }
        proof {
            let f = av.filter(pred);
            lemma_filter_prefix(av, pred, i as int);
            if i == self.assets.len() {
                assert(av.take(i as int) =~= av);
                assert(f.take(f.len() as int) =~= f);
            }
            assert(first_n(f, n as nat) =~= av.take(i as int).filter(pred));
        }
        Ok(out)
    }

    /// The pools of listed asset `asset` to query, each with its weight.
    pub fn pool_queries(&self, asset: &AssetInfo) -> (r: Result<Vec<(u64, u128)>, LcError>)
        ensures
            match asset_index(self.assets_spec(), asset.key()) {
                None => r matches Err(LcError::AssetNotFound),
                Some(i) => r matches Ok(v) && v@ == self.assets_spec()[i].1.1.map_values(|p: PoolType|
                    (pool_id_of(p), pool_weight(p, self.config.stableswap_multiplier))),
            },
    {
        let key = asset.key_string();
        proof { lemma_asset_index(self.assets_spec(), key@); }
        let i = match find_asset(&self.assets, &key) {
            Some(i) => i,
            None => return Err(LcError::AssetNotFound),
        };
        let pools = &self.assets[i].pool_infos;
        let mut out: Vec<(u64, u128)> = Vec::new();
        let mut k: usize = 0;
        while k < pools.len()
            invariant
                k <= pools.len(),
                out@ == pools@.take(k as int).map_values(|p: PoolType|
                    (pool_id_of(p), pool_weight(p, self.config.stableswap_multiplier))),
            decreases pools.len() - k,
        {
            let entry = match pools[k] {
                PoolType::Balancer { pool_id } => (pool_id, 1_000_000_000_000_000_000u128),
                PoolType::StableSwap { pool_id } => (pool_id, self.config.stableswap_multiplier),
            };
            out.push(entry);
            assert(out@ =~= pools@.take(k + 1).map_values(|p: PoolType|
                (pool_id_of(p), pool_weight(p, self.config.stableswap_multiplier))));
            k = k + 1;
        }
        assert(pools@.take(pools.len() as int) =~= pools@);
        Ok(out)
    }

    /// The amount of listed asset `asset` pooled in its pools, weighted:
    /// `states[k]` is the queried state of its `k`-th pool.
    pub fn get_liquidity(&self, asset: &AssetInfo, states: &Vec<Vec<PoolCoin>>) -> (r: Result<u128, LcError>)
        ensures
            match asset_index(self.assets_spec(), asset.key()) {
                None => r matches Err(LcError::AssetNotFound),
                Some(i) => {
                    let pools = self.assets_spec()[i].1.1;
                    let ss = states@.map_values(|s: Vec<PoolCoin>| s@);
                    if ss.len() != pools.len() {
                        r matches Err(LcError::QueryFailed)
                    } else {
                        match pooled_amounts(ss, asset.key()) {
                            Err(PoolFault::Missing) => r matches Err(LcError::NotInPool { denom }) && denom@ == asset.key(),
                            Err(PoolFault::Unparsable) => r matches Err(LcError::InvalidAmount),
                            Ok(amounts) => match weighted_sum(amounts,
                                pools.map_values(|p: PoolType| pool_weight(p, self.config.stableswap_multiplier))) {
                                Some(s) => r == Ok::<u128, LcError>(s as u128),
                                None => r matches Err(LcError::Overflow),
                            },
                        }
                    }
                },
            },
    {
        let key = asset.key_string();
        proof { lemma_asset_index(self.assets_spec(), key@); }
        let i = match find_asset(&self.assets, &key) {
            Some(i) => i,
            None => return Err(LcError::AssetNotFound),
        };
        let pools = &self.assets[i].pool_infos;
        if states.len() != pools.len() {
            return Err(LcError::QueryFailed);
        }
        let ghost ss = states@.map_values(|s: Vec<PoolCoin>| s@);
        let mut amounts: Vec<u128> = Vec::new();
        let mut weights: Vec<u128> = Vec::new();
        let mut k: usize = 0;
        assert(ss.take(0) =~= Seq::<Seq<PoolCoin>>::empty());
        while k < states.len()
            invariant
                k <= states.len(),
                states.len() == pools.len(),
                ss == states@.map_values(|s: Vec<PoolCoin>| s@),
                key@ == asset.key(),
                pooled_amounts(ss.take(k as int), key@) == Ok::<Seq<u128>, PoolFault>(amounts@),
                amounts@.len() == k,
                weights@.len() == k,
                asset_index(self.assets_spec(), asset.key()) == Some(i as int),
                pools@ == self.assets_spec()[i as int].1.1,
                weights@ == pools@.take(k as int).map_values(|p: PoolType| pool_weight(p, self.config.stableswap_multiplier)),
            decreases states.len() - k,
        {
            assert(ss.take(k + 1).drop_last() =~= ss.take(k as int));
            assert(ss.take(k + 1).last() == states@[k as int]@);
            let coins = &states[k];
            let mut c: usize = 0;
            proof { lemma_coin_index(coins@, key@); }
            while c < coins.len()
                invariant
                    c <= coins.len(),
                    coin_index(coins@.take(c as int), key@) is None,
                ensures
                    c <= coins.len(),
                    coin_index(coins@.take(c as int), key@) is None,
                    c < coins.len() ==> coins@[c as int].denom@ == key@,
                decreases coins.len() - c,
            {
                assert(coins@.take(c + 1).drop_last() =~= coins@.take(c as int));
                if coins[c].denom == key {
                    break;
                }
                assert(coins@.take(c + 1).last() == coins@[c as int]);
                c = c + 1;
            }
            if c == coins.len() {
                assert(coins@.take(c as int) =~= coins@);
                proof { lemma_amounts_prefix(ss, key@, k + 1); }
                return Err(LcError::NotInPool { denom: key });
            }
            proof { lemma_coin_index_prefix(coins@, key@, c as int); }
            let v = match parse_uint128(&coins[c].amount) {
                Some(v) => v,
                None => {
                    proof { lemma_amounts_prefix(ss, key@, k + 1); }
                    return Err(LcError::InvalidAmount);
                },
            };
            amounts.push(v);
            let w = match pools[k] {
                PoolType::Balancer { .. } => 1_000_000_000_000_000_000u128,
                PoolType::StableSwap { .. } => self.config.stableswap_multiplier,
            };
            weights.push(w);
            assert(weights@ =~= pools@.take(k + 1).map_values(|p: PoolType| pool_weight(p, self.config.stableswap_multiplier)));
            k = k + 1;
        }
        assert(ss.take(states.len() as int) =~= ss);
        assert(pools@.take(pools.len() as int) =~= pools@);
        pooled_total(&amounts, &weights)
    }
}

proof fn lemma_coin_index(coins: Seq<PoolCoin>, denom: Seq<char>)
    ensures
        coin_index(coins.take(0), denom) is None,
{
    assert(coins.take(0).len() == 0);
}

proof fn lemma_coin_index_prefix(coins: Seq<PoolCoin>, denom: Seq<char>, i: int)
    requires
        0 <= i < coins.len(),
        coin_index(coins.take(i), denom) is None,
        coins[i].denom@ == denom,
    ensures
        coin_index(coins, denom) == Some(i),
    decreases coins.len(),
{
    if i < coins.len() - 1 {
        assert(coins.drop_last().take(i) =~= coins.take(i));
        lemma_coin_index_prefix(coins.drop_last(), denom, i);
        assert(coins.drop_last()[i] == coins[i]);
    } else {
        assert(coins.drop_last() =~= coins.take(i));
    }
}

proof fn lemma_amounts_prefix(states: Seq<Seq<PoolCoin>>, denom: Seq<char>, k: int)
    requires
        0 <= k <= states.len(),
        pooled_amounts(states.take(k), denom) is Err,
    ensures
        pooled_amounts(states, denom) == pooled_amounts(states.take(k), denom),
    decreases states.len() - k,
{
    if k < states.len() {
        assert(states.take(k + 1).drop_last() =~= states.take(k));
        lemma_amounts_prefix(states, denom, k + 1);
    } else {
        assert(states.take(k) =~= states);
    }
}

/// A listed asset is found under its key, with the pools it was listed
/// with.
pub proof fn law_listed_asset_found(old: Seq<(Seq<char>, (AssetInfo, Seq<PoolType>))>,
    new: Seq<(Seq<char>, (AssetInfo, Seq<PoolType>))>, key: Seq<char>, info: (AssetInfo, Seq<PoolType>))
    requires
        asset_index(old, key) is None,
        exists|pos: int| 0 <= pos <= old.len() && new == old.insert(pos, (key, info)),
    ensures
        asset_index(new, key) matches Some(i) && new[i] == (key, info),
{
    let pos = choose|pos: int| 0 <= pos <= old.len() && new == old.insert(pos, (key, info));
    lemma_asset_index(old, key);
    let ks = asset_keys(new);
    assert(ks[pos] == key);
    assert forall|j: int| 0 <= j < pos implies ks.take(pos)[j] != key by {
        assert(ks.take(pos)[j] == old[j].0);
    }
    lemma_key_index(ks.take(pos), key);
    if let Some(j) = key_index(ks.take(pos), key) {
        assert(ks.take(pos)[j] != key);
    }
    lemma_key_index_prefix(ks, key, pos);
}

/// A removed asset is no longer found.
pub proof fn law_removed_asset_not_found(old: Seq<(Seq<char>, (AssetInfo, Seq<PoolType>))>, key: Seq<char>)
    requires
        keys_sorted(asset_keys(old)),
        asset_index(old, key) is Some,
    ensures
        asset_index(old.remove(asset_index(old, key)->0), key) is None,
{
    let i = asset_index(old, key)->0;
    let new = old.remove(i);
    lemma_asset_index(old, key);
    lemma_asset_index(new, key);
    if let Some(j) = asset_index(new, key) {
        let j2 = if j < i { j } else { j + 1 };
        assert(new[j] == old[j2]);
        assert(asset_keys(old)[j2] == key && asset_keys(old)[i] == key);
        lemma_key_order(key, key, key);
        assert(false);
    }
}

} // verus!
