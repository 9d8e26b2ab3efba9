//! The messages the launch sends once the positions contract, the
//! liquidation queue, the stableswap credit pool and the debt auction
//! exist, as plain values, and what those messages are made of.
use vstd::prelude::*;
use vstd::string::StringExecFns;
use crate::liquidity_check::PoolType;
use crate::liq_queue::types::AssetInfo;
use crate::launch::{CreditPools, LaunchAddrs, LaunchError, ProxyOwner, LaunchContract, Event, is_pool_share,
    find_pool_share, addr_of};

verus! {

/// Seconds in a day.
pub const SECONDS_PER_DAY: u64 = 86_400;
/// MBRN minted to incentivise the stableswap pool.
pub const STABLESWAP_INCENTIVES: u128 = 1_000_000_000_000;
/// Days over which the stableswap incentives are paid.
pub const INCENTIVE_EPOCHS: u64 = 90;

/// What the launch was configured with: its owner, the labs' address, the
/// denoms and pools of the system, the code ids of its contracts and the
/// router.
#[derive(Debug)]
pub struct LaunchConfig {
    pub owner: String,
    pub labs_addr: String,
    pub mbrn_denom: String,
    pub credit_denom: String,
    pub usdc_denom: String,
    pub atom_denom: String,
    pub osmo_denom: String,
    pub atomosmo_pool_id: u64,
    pub osmousdc_pool_id: u64,
    pub stability_pool_id: u64,
    pub liquidity_check_id: u64,
    pub margin_proxy_id: u64,
    pub oracle_id: u64,
    pub staking_id: u64,
    pub vesting_id: u64,
    pub governance_id: u64,
    pub positions_id: u64,
    pub liq_queue_id: u64,
    pub discount_vault_id: u64,
    pub system_discounts_id: u64,
    pub mbrn_auction_id: u64,
    pub apollo_router: String,
}

/// A pool whose time-weighted price prices `base_denom` in `quote_denom`.
#[derive(Debug)]
pub struct TwapSource {
    pub pool_id: u64,
    pub base_denom: String,
    pub quote_denom: String,
}

/// A collateral type of the positions contract's basket, as queried: its
/// asset and, for an LP share, the pool behind it.
#[derive(Debug)]
pub struct BasketCollateral {
    pub asset: AssetInfo,
    pub pool_id: Option<u64>,
}

/// A balancer pool whose shares are collateral: its two assets, each of 6
/// decimals and half of the pool.
#[derive(Debug)]
pub struct LpPool {
    pub pool_id: u64,
    pub asset_denoms: Vec<String>,
}

/// A collateral type of the basket, starting from no supply and a rate
/// index of one: LTVs in percent.
#[derive(Debug)]
pub struct Collateral {
    pub denom: String,
    pub max_borrow_ltv_percent: u64,
    pub max_ltv_percent: u64,
    pub pool: Option<LpPool>,
}

/// A supply cap of a collateral, starting from no supply and no debt:
/// ratios in percent.
#[derive(Debug)]
pub struct SupplyCap {
    pub asset: AssetInfo,
    pub supply_cap_percent: u64,
    pub lp: bool,
    pub stability_pool_ratio_percent: Option<u64>,
}

/// A message the launch sends.
#[derive(Debug)]
pub enum LaunchMsg {
    /// Have the oracle price `denom` for basket `basket_id`, through the
    /// chain of pools `twap_pools`, or at `static_price` (a decimal by its
    /// atomics) where set.
    AddOracleAsset { oracle: String, denom: String, basket_id: u128, twap_pools: Vec<TwapSource>, static_price: Option<u128> },
    /// Create basket `basket_id` of the collateral types, lending
    /// `credit_denom` at a price of one, at a base interest rate in percent.
    CreateBasket { positions: String, basket_id: u128, collateral: Vec<Collateral>, credit_denom: String, base_interest_percent: u64 },
    /// Instantiate the Stability Pool, owned by `owner`, for `credit_denom`
    /// at a liquidation premium in percent.
    InstantiateStabilityPool {
        admin: String,
        code_id: u64,
        owner: String,
        credit_denom: String,
        liq_premium_percent: u64,
        osmosis_proxy: String,
        positions: String,
        mbrn_denom: String,
    },
    /// Add a collateral type to the basket, with the liquidation queue,
    /// supply caps, whether rates may turn negative and the margin of error
    /// of the credit price (in percent) where set.
    EditBasket {
        positions: String,
        added: Collateral,
        liq_queue: Option<String>,
        supply_caps: Option<Vec<SupplyCap>>,
        negative_rates: Option<bool>,
        cpc_margin_percent: Option<u64>,
    },
    /// Instantiate the liquidity check, owned by `owner`.
    InstantiateLiquidityCheck { admin: String, code_id: u64, owner: String, positions: String, osmosis_proxy: String },
    /// Create the denom `subdenom` through the osmosis proxy, paying
    /// `fee_amount` of `fee_denom`; with `reply`, the launch handles the
    /// reply.
    CreateDenom { proxy: String, subdenom: String, fee_denom: String, fee_amount: u128, reply: bool },
    /// Instantiate the oracle, with no owner or positions contract yet.
    InstantiateOracle { admin: String, code_id: u64 },
    /// Instantiate staking, with the osmosis proxy, MBRN, the router and its
    /// largest spread in percent.
    InstantiateStaking { admin: String, code_id: u64, osmosis_proxy: String, mbrn_denom: String, dex_router: String,
        max_spread_percent: u64 },
    /// Instantiate vesting with its initial allocation for the labs.
    InstantiateVesting { admin: String, code_id: u64, initial_allocation: u128, labs_addr: String, mbrn_denom: String,
        osmosis_proxy: String, staking: String },
    /// Instantiate governance: its contracts, the vesting multiplier in
    /// percent, its periods in blocks, its required stake, quorum and
    /// threshold, and the links proposals may carry.
    InstantiateGovernance {
        admin: String,
        code_id: u64,
        staking: String,
        vesting: String,
        vesting_multiplier_percent: u64,
        proposal_voting_period: u64,
        expedited_proposal_voting_period: u64,
        proposal_effective_delay: u64,
        proposal_expiration_period: u64,
        proposal_required_stake: u128,
        proposal_required_quorum: String,
        proposal_required_threshold: String,
        whitelisted_links: Vec<String>,
    },
    /// Make `admin` the admin of `contract`.
    UpdateAdmin { contract: String, admin: String },
    /// Instantiate the positions contract: its liquidation fee in percent,
    /// oracle time limit and TWAP timeframes (in seconds, minutes), its
    /// debt minimum, and the contracts it starts with.
    InstantiatePositions {
        admin: String,
        code_id: u64,
        liq_fee_percent: u64,
        oracle_time_limit: u64,
        debt_minimum: u128,
        collateral_twap_timeframe: u64,
        credit_twap_timeframe: u64,
        dex_router: String,
        staking: String,
        oracle: String,
        osmosis_proxy: String,
    },
    /// Instantiate the liquidation queue, owned by `owner`, with the wait
    /// of its waiting bids in seconds.
    InstantiateLiqQueue { admin: String, code_id: u64, owner: String, positions: String, waiting_period: u64 },
    /// Instantiate the discount vault, owned by `owner`, accepting no LPs
    /// yet.
    InstantiateDiscountVault { admin: String, code_id: u64, owner: String, positions: String, osmosis_proxy: String },
    /// Instantiate the system discounts, owned by `owner`, with the days a
    /// user must be in the network.
    InstantiateSystemDiscounts {
        admin: String,
        code_id: u64,
        owner: String,
        positions: String,
        oracle: String,
        staking: String,
        stability_pool: String,
        discount_vault: String,
        minimum_time_in_network: u64,
    },
    /// Instantiate the debt auction, owned by `owner`: its TWAP timeframe
    /// in minutes, and its discount (in percent) growing by
    /// `discount_increase_percent` every `discount_increase_timeframe`
    /// seconds.
    InstantiateDebtAuction {
        admin: String,
        code_id: u64,
        owner: String,
        positions: String,
        oracle: String,
        osmosis_proxy: String,
        twap_timeframe: u64,
        mbrn_denom: String,
        initial_discount_percent: u64,
        discount_increase_timeframe: u64,
        discount_increase_percent: u64,
    },
    /// Mint `amount` of `denom` to `mint_to` through the osmosis proxy.
    MintTokens { proxy: String, denom: String, amount: u128, mint_to: String },
    /// A gauge owned by `owner` that pays `reward_amount` of `reward_denom`
    /// over `epochs` days to the locks of `lock_denom` of `lock_seconds`.
    CreateGauge {
        owner: String,
        lock_denom: String,
        lock_seconds: u64,
        reward_denom: String,
        reward_amount: String,
        epochs: u64,
    },
    /// Set the basket's credit pools and where the credit price comes from.
    SetCreditPools { positions: String, credit_pool_infos: Vec<PoolType>, credit_twap: TwapSource },
    /// Accept the shares of the pools in the discount vault.
    AcceptLPs { vault: String, pool_ids: Vec<u64> },
    /// Send `amount` of `denom` to `to`.
    BankSend { to: String, denom: String, amount: u128 },
    /// Give the osmosis proxy its owners and the contracts it works with.
    UpdateProxy { proxy: String, owners: Vec<ProxyOwner>, debt_auction: String, positions: String, liquidity: String },
    /// Hand the oracle to `owner` and tell it the positions contract.
    UpdateOracle { oracle: String, owner: String, positions: String },
    /// Hand staking to `owner` and tell it the contracts it works with.
    UpdateStaking { staking: String, owner: String, positions: String, vesting: String, governance: String },
    /// Hand vesting to `owner`.
    UpdateVesting { vesting: String, owner: String },
    /// Hand the positions contract to `owner` and tell it the contracts it
    /// works with.
    UpdatePositions {
        positions: String,
        owner: String,
        stability_pool: String,
        debt_auction: String,
        liquidity: String,
        discounts: String,
    },
    /// Set supply caps of the basket, with negative rates switched off.
    SetSupplyCaps { positions: String, caps: Vec<SupplyCap> },
    /// Instantiate the margin proxy, owned by `owner`, with its slippage
    /// limit in percent.
    InstantiateMarginProxy {
        admin: String,
        code_id: u64,
        owner: String,
        positions: String,
        router: String,
        max_slippage_percent: u64,
    },
}

/// Whether `caps` are the supply caps of the LP shares among `basket`, in
/// their order: each a full cap, with a third of the Stability Pool as the
/// debt cap's ratio.
pub open spec fn lp_supply_caps(basket: Seq<BasketCollateral>, caps: Seq<SupplyCap>) -> bool
    decreases basket.len(),
{
    if basket.len() == 0 {
        caps.len() == 0
    } else if basket.last().pool_id is Some {
        caps.len() > 0 && caps.last().asset == basket.last().asset && caps.last().supply_cap_percent == 100
            && caps.last().lp && caps.last().stability_pool_ratio_percent == Some(33u64)
            && lp_supply_caps(basket.drop_last(), caps.drop_last())
    } else {
        lp_supply_caps(basket.drop_last(), caps)
    }
}

/// The supply caps of the LP shares among `basket` (see `lp_supply_caps`).
pub fn lp_caps(basket: &Vec<BasketCollateral>) -> (caps: Vec<SupplyCap>)
    ensures
        lp_supply_caps(basket@, caps@),
{
    let mut caps: Vec<SupplyCap> = Vec::new();
    let mut i: usize = 0;
    while i < basket.len()
        invariant
            i <= basket.len(),
            lp_supply_caps(basket@.take(i as int), caps@),
        decreases basket.len() - i,
    {
        let ghost before = caps@;
        assert(basket@.take(i + 1).drop_last() =~= basket@.take(i as int));
        assert(basket@.take(i + 1).last() == basket@[i as int]);
        if basket[i].pool_id.is_some() {
            caps.push(SupplyCap {
                asset: basket[i].asset.copy(),
                supply_cap_percent: 100,
                lp: true,
                stability_pool_ratio_percent: Some(33),
            });
            assert(caps@.drop_last() =~= before);
        }
        i = i + 1;
    }
    assert(basket@.take(basket.len() as int) =~= basket@);
    caps
}

/// The messages that hand the system to governance once the debt auction
/// exists (see `handle_auction_reply`).
pub open spec fn auction_msgs(msgs: Seq<LaunchMsg>, addrs: LaunchAddrs, cfg: LaunchConfig,
    basket: Seq<BasketCollateral>) -> bool {
    &&& msgs.len() == 7
    &&& msgs[0] matches LaunchMsg::UpdateProxy { proxy, owners, debt_auction, positions, liquidity }
        && proxy@ == addrs.osmosis_proxy@ && proxy_owners_of(owners@, addrs) && debt_auction@ == addrs.mbrn_auction@
        && positions@ == addrs.positions@ && liquidity@ == addrs.liquidity_check@
    &&& msgs[1] matches LaunchMsg::UpdateOracle { oracle, owner, positions }
        && oracle@ == addrs.oracle@ && owner@ == addrs.governance@ && positions@ == addrs.positions@
    &&& msgs[2] matches LaunchMsg::UpdateStaking { staking, owner, positions, vesting, governance }
        && staking@ == addrs.staking@ && owner@ == addrs.governance@ && positions@ == addrs.positions@
        && vesting@ == addrs.vesting@ && governance@ == addrs.governance@
    &&& msgs[3] matches LaunchMsg::UpdateVesting { vesting, owner }
        && vesting@ == addrs.vesting@ && owner@ == addrs.governance@
    &&& msgs[4] matches LaunchMsg::UpdatePositions { positions, owner, stability_pool, debt_auction, liquidity, discounts }
        && positions@ == addrs.positions@ && owner@ == addrs.governance@ && stability_pool@ == addrs.stability_pool@
        && debt_auction@ == addrs.mbrn_auction@ && liquidity@ == addrs.liquidity_check@
        && discounts@ == addrs.system_discounts@
    &&& msgs[5] matches LaunchMsg::SetSupplyCaps { positions, caps }
        && positions@ == addrs.positions@ && lp_supply_caps(basket, caps@)
    &&& msgs[6] matches LaunchMsg::InstantiateMarginProxy { admin, code_id, owner, positions, router, max_slippage_percent }
        && admin@ == addrs.governance@ && code_id == cfg.margin_proxy_id && owner@ == addrs.governance@
        && positions@ == addrs.positions@ && router@ == cfg.apollo_router@ && max_slippage_percent == 1
}

/// Whether `r` is the owner list of `LaunchAddrs::proxy_owners`.
pub open spec fn proxy_owners_of(r: Seq<ProxyOwner>, a: LaunchAddrs) -> bool {
    &&& r.len() == 6
    &&& r[0].owner@ == a.positions@ && r[0].liquidity_multiplier == Some(10_000_000_000_000_000_000u128)
        && r[0].stability_pool_ratio == Some(0u128) && !r[0].non_token_contract_auth
    &&& r[1].owner@ == a.vesting@
    &&& r[2].owner@ == a.staking@
    &&& r[3].owner@ == a.stability_pool@
    &&& r[4].owner@ == a.governance@ && r[4].non_token_contract_auth
    &&& r[5].owner@ == a.mbrn_auction@
    &&& forall|k: int| 1 <= k < 6 ==> (#[trigger] r[k]).liquidity_multiplier is None && r[k].stability_pool_ratio is None
    &&& forall|k: int| 1 <= k < 6 && k != 4 ==> !(#[trigger] r[k]).non_token_contract_auth
}

/// The messages that hand the system to governance once the debt auction
/// exists: the osmosis proxy gets its owners, the oracle, staking, vesting
/// and the positions contract get governance as owner and the contracts
/// they work with, the LP shares of the basket get supply caps, and the
/// margin proxy is instantiated.
pub fn auction_messages(addrs: &LaunchAddrs, cfg: &LaunchConfig, basket: &Vec<BasketCollateral>) -> (r: Vec<LaunchMsg>)
    ensures
        auction_msgs(r@, *addrs, *cfg, basket@),
{
    let a = addrs;
    let mut msgs: Vec<LaunchMsg> = Vec::new();
    msgs.push(LaunchMsg::UpdateProxy {
        proxy: a.osmosis_proxy.clone(),
        owners: a.proxy_owners(),
        debt_auction: a.mbrn_auction.clone(),
        positions: a.positions.clone(),
        liquidity: a.liquidity_check.clone(),
    });
    msgs.push(LaunchMsg::UpdateOracle { oracle: a.oracle.clone(), owner: a.governance.clone(), positions: a.positions.clone() });
    msgs.push(LaunchMsg::UpdateStaking {
        staking: a.staking.clone(),
        owner: a.governance.clone(),
        positions: a.positions.clone(),
        vesting: a.vesting.clone(),
        governance: a.governance.clone(),
    });
    msgs.push(LaunchMsg::UpdateVesting { vesting: a.vesting.clone(), owner: a.governance.clone() });
    msgs.push(LaunchMsg::UpdatePositions {
        positions: a.positions.clone(),
        owner: a.governance.clone(),
        stability_pool: a.stability_pool.clone(),
        debt_auction: a.mbrn_auction.clone(),
        liquidity: a.liquidity_check.clone(),
        discounts: a.system_discounts.clone(),
    });
    msgs.push(LaunchMsg::SetSupplyCaps { positions: a.positions.clone(), caps: lp_caps(basket) });
    msgs.push(LaunchMsg::InstantiateMarginProxy {
        admin: a.governance.clone(),
        code_id: cfg.margin_proxy_id,
        owner: a.governance.clone(),
        positions: a.positions.clone(),
        router: cfg.apollo_router.clone(),
        max_slippage_percent: 1,
    });
    msgs
}

/// The messages sent once the stableswap credit pool is created (see
/// `handle_stableswap_reply`): `created` is the new pool's id with the denom of
/// its shares, if the reply carried it, and `share` the pool share coin
/// sent to governance.
pub open spec fn stableswap_msgs(msgs: Seq<LaunchMsg>, pools: CreditPools, created: Option<(u64, String)>,
    share: (String, u128), addrs: LaunchAddrs, cfg: LaunchConfig, contract: Seq<char>) -> bool {
    let ss = match created { Some(c) => c.0, None => pools.stableswap };
    let shares: Seq<char> = match created { Some(c) => c.1@, None => Seq::empty() };
    &&& msgs.len() == 5
    &&& msgs[0] matches LaunchMsg::MintTokens { proxy, denom, amount, mint_to }
        && proxy@ == addrs.osmosis_proxy@ && denom@ == cfg.mbrn_denom@ && amount == STABLESWAP_INCENTIVES
        && mint_to@ == contract
    &&& msgs[1] matches LaunchMsg::CreateGauge { owner, lock_denom, lock_seconds, reward_denom, reward_amount, epochs }
        && owner@ == addrs.governance@ && lock_denom@ == shares && lock_seconds == 14 * SECONDS_PER_DAY
        && reward_denom@ == cfg.mbrn_denom@ && reward_amount@ == "1_000_000_000_000"@ && epochs == INCENTIVE_EPOCHS
    &&& msgs[2] matches LaunchMsg::SetCreditPools { positions, credit_pool_infos, credit_twap }
        && positions@ == addrs.positions@
        && credit_pool_infos@ == seq![PoolType::StableSwap { pool_id: ss }, PoolType::Balancer { pool_id: pools.atom },
            PoolType::Balancer { pool_id: pools.osmo }]
        && credit_twap.pool_id == ss && credit_twap.base_denom@ == cfg.credit_denom@
        && credit_twap.quote_denom@ == cfg.usdc_denom@
    &&& msgs[3] matches LaunchMsg::AcceptLPs { vault, pool_ids }
        && vault@ == addrs.discount_vault@ && pool_ids@ == seq![ss, pools.atom, pools.osmo]
    &&& msgs[4] matches LaunchMsg::BankSend { to, denom, amount }
        && to@ == addrs.governance@ && denom == share.0 && amount == share.1
}

/// Handle the reply to the creation of the stableswap credit pool, given
/// the credit pools recorded so far, the new pool's id with the denom of
/// its shares (where the reply carried them), the balances of this
/// contract `contract` and the launch's addresses: save the new pool's id
/// as the stableswap pool, mint MBRN to incentivise the pool through a
/// gauge of 14-day locks, make the credit pools the basket's (the
/// stableswap pool pricing the credit token in USDC) and the discount
/// vault's accepted LPs, and send the first pool share coin held to
/// governance. A refused reply records nothing.
pub fn handle_stableswap_reply(pools: &mut CreditPools, reply: Result<Option<(u64, String)>, String>,
    balances: &Vec<(String, u128)>, addrs: &LaunchAddrs, cfg: &LaunchConfig, contract: &String)
    -> (r: Result<Vec<LaunchMsg>, LaunchError>)
    ensures
        final(pools).atom == old(pools).atom,
        final(pools).osmo == old(pools).osmo,
        r is Err ==> final(pools).stableswap == old(pools).stableswap,
        r is Ok ==> final(pools).stableswap == match reply {
            Ok(Some(c)) => c.0,
            _ => old(pools).stableswap,
        },
        match reply {
            Err(m) => r matches Err(LaunchError::ReplyFailed { msg }) && msg == m,
            Ok(created) => if forall|j: int| 0 <= j < balances@.len() ==> !is_pool_share((#[trigger] balances@[j]).0@) {
                r matches Err(LaunchError::NoPoolShares)
            } else {
                r matches Ok(msgs) && exists|k: int| 0 <= k < balances@.len() && is_pool_share(balances@[k].0@)
                    && (forall|j: int| 0 <= j < k ==> !is_pool_share((#[trigger] balances@[j]).0@))
                    && stableswap_msgs(msgs@, *old(pools), created, balances@[k], *addrs, *cfg, contract@)
            },
        },
{
    let created = match reply {
        Ok(c) => c,
        Err(m) => return Err(LaunchError::ReplyFailed { msg: m }),
    };
    let (ss, shares) = match &created {
        Some((id, denom)) => (*id, denom.clone()),
        None => (pools.stableswap, String::new()),
    };
    let credit = CreditPools { stableswap: ss, atom: pools.atom, osmo: pools.osmo };
    let mut msgs: Vec<LaunchMsg> = Vec::new();
    msgs.push(LaunchMsg::MintTokens {
        proxy: addrs.osmosis_proxy.clone(),
        denom: cfg.mbrn_denom.clone(),
        amount: STABLESWAP_INCENTIVES,
        mint_to: contract.clone(),
    });
    msgs.push(LaunchMsg::CreateGauge {
        owner: addrs.governance.clone(),
        lock_denom: shares,
        lock_seconds: 14 * SECONDS_PER_DAY,
        reward_denom: cfg.mbrn_denom.clone(),
        reward_amount: String::from_str("1_000_000_000_000"),
        epochs: INCENTIVE_EPOCHS,
    });
    msgs.push(LaunchMsg::SetCreditPools {
        positions: addrs.positions.clone(),
        credit_pool_infos: credit.credit_pool_infos(),
        credit_twap: TwapSource {
            pool_id: ss,
            base_denom: cfg.credit_denom.clone(),
            quote_denom: cfg.usdc_denom.clone(),
        },
    });
    msgs.push(LaunchMsg::AcceptLPs { vault: addrs.discount_vault.clone(), pool_ids: credit.to_vec() });
    let (denom, amount) = find_pool_share(balances)?;
    msgs.push(LaunchMsg::BankSend { to: addrs.governance.clone(), denom, amount });
    pools.stableswap = ss;
    Ok(msgs)
}

impl LaunchAddrs {
    /// Handle the reply to the instantiation of the debt auction: record
    /// its address, then hand the system to governance (see
    /// `auction_messages`, over the basket's collateral types `basket` as
    /// the positions contract reports them).
    pub fn handle_auction_reply(&mut self, result: Result<Vec<Event>, String>, cfg: &LaunchConfig,
        basket: &Vec<BasketCollateral>) -> (r: Result<Vec<LaunchMsg>, LaunchError>)
        ensures
            r is Err ==> forall|o: LaunchContract| addr_of(*final(self), o) == addr_of(*old(self), o),
            match result {
                Err(m) => r matches Err(LaunchError::ReplyFailed { msg }) && msg == m,
                Ok(events) => match crate::launch::named_address(events@) {
                    None => r matches Err(LaunchError::NoInstantiateEvent),
                    Some(a) => r matches Ok(msgs) && auction_msgs(msgs@, *final(self), *cfg, basket@)
                        && addr_of(*final(self), LaunchContract::MbrnAuction) == a
                        && forall|o: LaunchContract| o != LaunchContract::MbrnAuction
                            ==> addr_of(*final(self), o) == addr_of(*old(self), o),
                },
            },
    {
        self.reply_with(LaunchContract::MbrnAuction, result)?;
        Ok(auction_messages(self, cfg, basket))
    }
}

/// Whether `c` is the collateral `denom` with the given LTVs, not pooled.
pub open spec fn plain_collateral(c: Collateral, denom: Seq<char>, borrow: u64, max: u64) -> bool {
    c.denom@ == denom && c.max_borrow_ltv_percent == borrow && c.max_ltv_percent == max && c.pool is None
}

/// Whether `c` is the share of pool `pool_id` of `a` and `b`, borrowing 40%
/// of its value at most and liquidated above 60%, its denom the pool id's
/// text (the positions contract fills in the share denom).
pub open spec fn lp_collateral(c: Collateral, pool_id: u64, a: Seq<char>, b: Seq<char>) -> bool {
    &&& c.denom@ == crate::governance::state::id_text(pool_id)
    &&& c.max_borrow_ltv_percent == 40 && c.max_ltv_percent == 60
    &&& c.pool matches Some(p) && p.pool_id == pool_id && p.asset_denoms@.len() == 2
        && p.asset_denoms@[0]@ == a && p.asset_denoms@[1]@ == b
}

/// Whether `t` prices `base` in `quote` through pool `id`.
pub open spec fn twap_is(t: TwapSource, id: u64, base: Seq<char>, quote: Seq<char>) -> bool {
    t.pool_id == id && t.base_denom@ == base && t.quote_denom@ == quote
}

/// Whether `c` is a full cap of native `denom` that is no LP share.
pub open spec fn full_cap(c: SupplyCap, denom: Seq<char>) -> bool {
    (c.asset matches AssetInfo::NativeToken { denom: d } && d@ == denom) && c.supply_cap_percent == 100 && !c.lp
        && c.stability_pool_ratio_percent is None
}

/// The messages sent once the positions contract exists (see
/// `handle_cdp_reply`).
pub open spec fn cdp_msgs(msgs: Seq<LaunchMsg>, a: LaunchAddrs, cfg: LaunchConfig) -> bool {
    &&& msgs.len() == 5
    &&& msgs[0] matches LaunchMsg::AddOracleAsset { oracle, denom, basket_id, twap_pools, static_price }
        && oracle@ == a.oracle@ && denom@ == cfg.atom_denom@ && basket_id == 1 && static_price is None
        && twap_pools@.len() == 2
        && twap_is(twap_pools@[0], cfg.atomosmo_pool_id, cfg.atom_denom@, cfg.osmo_denom@)
        && twap_is(twap_pools@[1], cfg.osmousdc_pool_id, cfg.osmo_denom@, cfg.usdc_denom@)
    &&& msgs[1] matches LaunchMsg::AddOracleAsset { oracle, denom, basket_id, twap_pools, static_price }
        && oracle@ == a.oracle@ && denom@ == cfg.osmo_denom@ && basket_id == 1 && static_price is None
        && twap_pools@.len() == 1
        && twap_is(twap_pools@[0], cfg.osmousdc_pool_id, cfg.osmo_denom@, cfg.usdc_denom@)
    &&& msgs[2] matches LaunchMsg::AddOracleAsset { oracle, denom, basket_id, twap_pools, static_price }
        && oracle@ == a.oracle@ && denom@ == cfg.usdc_denom@ && basket_id == 1
        && static_price == Some(1_000_000_000_000_000_000u128) && twap_pools@.len() == 0
    &&& msgs[3] matches LaunchMsg::CreateBasket { positions, basket_id, collateral, credit_denom, base_interest_percent }
        && positions@ == a.positions@ && basket_id == 1 && credit_denom@ == cfg.credit_denom@ && base_interest_percent == 1
        && collateral@.len() == 3
        && plain_collateral(collateral@[0], cfg.atom_denom@, 40, 60)
        && plain_collateral(collateral@[1], cfg.osmo_denom@, 40, 60)
        && plain_collateral(collateral@[2], cfg.usdc_denom@, 90, 96)
    &&& msgs[4] matches LaunchMsg::InstantiateStabilityPool { admin, code_id, owner, credit_denom, liq_premium_percent,
            osmosis_proxy, positions, mbrn_denom }
        && admin@ == a.governance@ && code_id == cfg.stability_pool_id && owner@ == a.governance@
        && credit_denom@ == cfg.credit_denom@ && liq_premium_percent == 10 && osmosis_proxy@ == a.osmosis_proxy@
        && positions@ == a.positions@ && mbrn_denom@ == cfg.mbrn_denom@
}

fn twap(pool_id: u64, base: &String, quote: &String) -> (t: TwapSource)
    ensures
        twap_is(t, pool_id, base@, quote@),
{
    TwapSource { pool_id, base_denom: base.clone(), quote_denom: quote.clone() }
}

fn plain(denom: &String, borrow: u64, max: u64) -> (c: Collateral)
    ensures
        plain_collateral(c, denom@, borrow, max),
{
    Collateral { denom: denom.clone(), max_borrow_ltv_percent: borrow, max_ltv_percent: max, pool: None }
}

fn lp(pool_id: u64, a: &String, b: &String) -> (c: Collateral)
    ensures
        lp_collateral(c, pool_id, a@, b@),
{
    let mut denoms: Vec<String> = Vec::new();
    denoms.push(a.clone());
    denoms.push(b.clone());
    Collateral {
        denom: crate::governance::state::id_key(pool_id),
        max_borrow_ltv_percent: 40,
        max_ltv_percent: 60,
        pool: Some(LpPool { pool_id, asset_denoms: denoms }),
    }
}

fn cap(denom: &String) -> (c: SupplyCap)
    ensures
        full_cap(c, denom@),
{
    SupplyCap {
        asset: AssetInfo::NativeToken { denom: denom.clone() },
        supply_cap_percent: 100,
        lp: false,
        stability_pool_ratio_percent: None,
    }
}

/// The messages sent once the positions contract exists: the oracle
/// learns to price ATOM (through ATOM/OSMO and OSMO/USDC), OSMO (through
/// OSMO/USDC) and USDC (at one), the basket of the three is created, and
/// the Stability Pool is instantiated, last, as the launch's next step.
pub fn cdp_messages(a: &LaunchAddrs, cfg: &LaunchConfig) -> (r: Vec<LaunchMsg>)
    ensures
        cdp_msgs(r@, *a, *cfg),
{
    let mut msgs: Vec<LaunchMsg> = Vec::new();
    let mut atom_pools: Vec<TwapSource> = Vec::new();
    atom_pools.push(twap(cfg.atomosmo_pool_id, &cfg.atom_denom, &cfg.osmo_denom));
    atom_pools.push(twap(cfg.osmousdc_pool_id, &cfg.osmo_denom, &cfg.usdc_denom));
    msgs.push(LaunchMsg::AddOracleAsset { oracle: a.oracle.clone(), denom: cfg.atom_denom.clone(), basket_id: 1,
        twap_pools: atom_pools, static_price: None });
    let mut osmo_pools: Vec<TwapSource> = Vec::new();
    osmo_pools.push(twap(cfg.osmousdc_pool_id, &cfg.osmo_denom, &cfg.usdc_denom));
    msgs.push(LaunchMsg::AddOracleAsset { oracle: a.oracle.clone(), denom: cfg.osmo_denom.clone(), basket_id: 1,
        twap_pools: osmo_pools, static_price: None });
    msgs.push(LaunchMsg::AddOracleAsset { oracle: a.oracle.clone(), denom: cfg.usdc_denom.clone(), basket_id: 1,
        twap_pools: Vec::new(), static_price: Some(1_000_000_000_000_000_000u128) });
    let mut collateral: Vec<Collateral> = Vec::new();
    collateral.push(plain(&cfg.atom_denom, 40, 60));
    collateral.push(plain(&cfg.osmo_denom, 40, 60));
    collateral.push(plain(&cfg.usdc_denom, 90, 96));
    msgs.push(LaunchMsg::CreateBasket { positions: a.positions.clone(), basket_id: 1, collateral,
        credit_denom: cfg.credit_denom.clone(), base_interest_percent: 1 });
    msgs.push(LaunchMsg::InstantiateStabilityPool {
        admin: a.governance.clone(),
        code_id: cfg.stability_pool_id,
        owner: a.governance.clone(),
        credit_denom: cfg.credit_denom.clone(),
        liq_premium_percent: 10,
        osmosis_proxy: a.osmosis_proxy.clone(),
        positions: a.positions.clone(),
        mbrn_denom: cfg.mbrn_denom.clone(),
    });
    msgs
}

/// The messages sent once the liquidation queue exists (see
/// `handle_lq_reply`).
pub open spec fn lq_msgs(msgs: Seq<LaunchMsg>, a: LaunchAddrs, cfg: LaunchConfig) -> bool {
    &&& msgs.len() == 3
    &&& msgs[0] matches LaunchMsg::EditBasket { positions, added, liq_queue, supply_caps, negative_rates, cpc_margin_percent }
        && positions@ == a.positions@
        && lp_collateral(added, cfg.atomosmo_pool_id, cfg.atom_denom@, cfg.osmo_denom@)
        && (liq_queue matches Some(q) && q@ == a.liq_queue@)
        && (supply_caps matches Some(caps) && caps@.len() == 3 && full_cap(caps@[0], cfg.osmo_denom@)
            && full_cap(caps@[1], cfg.atom_denom@) && full_cap(caps@[2], cfg.usdc_denom@))
        && negative_rates == Some(false) && cpc_margin_percent == Some(1u64)
    &&& msgs[1] matches LaunchMsg::EditBasket { positions, added, liq_queue, supply_caps, negative_rates, cpc_margin_percent }
        && positions@ == a.positions@
        && lp_collateral(added, cfg.osmousdc_pool_id, cfg.osmo_denom@, cfg.usdc_denom@)
        && liq_queue is None && supply_caps is None && negative_rates is None && cpc_margin_percent is None
    &&& msgs[2] matches LaunchMsg::InstantiateLiquidityCheck { admin, code_id, owner, positions, osmosis_proxy }
        && admin@ == a.governance@ && code_id == cfg.liquidity_check_id && owner@ == a.governance@
        && positions@ == a.positions@ && osmosis_proxy@ == a.osmosis_proxy@
}

/// The messages sent once the liquidation queue exists: the ATOM/OSMO
/// pool's shares join the basket with the queue and full supply caps for
/// OSMO, ATOM and USDC (negative rates off, a 1% margin of error on the
/// credit price), then the OSMO/USDC pool's shares, and the liquidity check
/// is instantiated, last, as the launch's next step.
pub fn lq_messages(a: &LaunchAddrs, cfg: &LaunchConfig) -> (r: Vec<LaunchMsg>)
    ensures
        lq_msgs(r@, *a, *cfg),
{
    let mut msgs: Vec<LaunchMsg> = Vec::new();
    let mut caps: Vec<SupplyCap> = Vec::new();
    caps.push(cap(&cfg.osmo_denom));
    caps.push(cap(&cfg.atom_denom));
    caps.push(cap(&cfg.usdc_denom));
    msgs.push(LaunchMsg::EditBasket {
        positions: a.positions.clone(),
        added: lp(cfg.atomosmo_pool_id, &cfg.atom_denom, &cfg.osmo_denom),
        liq_queue: Some(a.liq_queue.clone()),
        supply_caps: Some(caps),
        negative_rates: Some(false),
        cpc_margin_percent: Some(1),
    });
    msgs.push(LaunchMsg::EditBasket {
        positions: a.positions.clone(),
        added: lp(cfg.osmousdc_pool_id, &cfg.osmo_denom, &cfg.usdc_denom),
        liq_queue: None,
        supply_caps: None,
        negative_rates: None,
        cpc_margin_percent: None,
    });
    msgs.push(LaunchMsg::InstantiateLiquidityCheck {
        admin: a.governance.clone(),
        code_id: cfg.liquidity_check_id,
        owner: a.governance.clone(),
        positions: a.positions.clone(),
        osmosis_proxy: a.osmosis_proxy.clone(),
    });
    msgs
}

impl LaunchAddrs {
    /// Handle the reply to the instantiation of contract `c` and answer the
    /// messages that follow it (the positions contract, the liquidation
    /// queue or the debt auction; see `cdp_messages`, `lq_messages` and
    /// `auction_messages`).
    pub(crate) fn reply_with(&mut self, c: LaunchContract, result: Result<Vec<Event>, String>) -> (r: Result<(), LaunchError>)
        ensures
            r is Err ==> forall|o: LaunchContract| addr_of(*final(self), o) == addr_of(*old(self), o),
            match result {
                Err(m) => r matches Err(LaunchError::ReplyFailed { msg }) && msg == m,
                Ok(events) => match crate::launch::named_address(events@) {
                    None => r matches Err(LaunchError::NoInstantiateEvent),
                    Some(a) => r is Ok && addr_of(*final(self), c) == a
                        && forall|o: LaunchContract| o != c ==> addr_of(*final(self), o) == addr_of(*old(self), o),
                },
            },
    {
        match self.handle_instantiate_reply(c, result) {
            Ok(_) => Ok(()),
            Err(e) => Err(e),
        }
    }

    /// Handle the reply to the instantiation of the positions contract:
    /// record its address, then answer `cdp_messages`.
    pub fn handle_cdp_reply(&mut self, result: Result<Vec<Event>, String>, cfg: &LaunchConfig)
        -> (r: Result<Vec<LaunchMsg>, LaunchError>)
        ensures
            r is Err ==> forall|o: LaunchContract| addr_of(*final(self), o) == addr_of(*old(self), o),
            match result {
                Err(m) => r matches Err(LaunchError::ReplyFailed { msg }) && msg == m,
                Ok(events) => match crate::launch::named_address(events@) {
                    None => r matches Err(LaunchError::NoInstantiateEvent),
                    Some(a) => r matches Ok(msgs) && cdp_msgs(msgs@, *final(self), *cfg)
                        && addr_of(*final(self), LaunchContract::Positions) == a
                        && forall|o: LaunchContract| o != LaunchContract::Positions
                            ==> addr_of(*final(self), o) == addr_of(*old(self), o),
                },
            },
    {
        self.reply_with(LaunchContract::Positions, result)?;
        Ok(cdp_messages(self, cfg))
    }

    /// Handle the reply to the instantiation of the liquidation queue:
    /// record its address, then answer `lq_messages`.
    pub fn handle_lq_reply(&mut self, result: Result<Vec<Event>, String>, cfg: &LaunchConfig)
        -> (r: Result<Vec<LaunchMsg>, LaunchError>)
        ensures
            r is Err ==> forall|o: LaunchContract| addr_of(*final(self), o) == addr_of(*old(self), o),
            match result {
                Err(m) => r matches Err(LaunchError::ReplyFailed { msg }) && msg == m,
                Ok(events) => match crate::launch::named_address(events@) {
                    None => r matches Err(LaunchError::NoInstantiateEvent),
                    Some(a) => r matches Ok(msgs) && lq_msgs(msgs@, *final(self), *cfg)
                        && addr_of(*final(self), LaunchContract::LiqQueue) == a
                        && forall|o: LaunchContract| o != LaunchContract::LiqQueue
                            ==> addr_of(*final(self), o) == addr_of(*old(self), o),
                },
            },
    {
        self.reply_with(LaunchContract::LiqQueue, result)?;
        Ok(lq_messages(self, cfg))
    }
}

} // verus!
