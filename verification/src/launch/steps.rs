//! The launch's steps from the osmosis proxy to the debt auction: each reply
//! to an instantiation records the new contract and instantiates the next,
//! and the replies to the denoms and the balancer pools record them. Also
//! the owner's change of the launch configuration.
use vstd::prelude::*;
use vstd::string::StringExecFns;
use crate::launch::{CreditPools, LaunchAddrs, LaunchError, LaunchContract, Event, addr_of, named_address, save_denoms};
use crate::launch::replies::{LaunchConfig, LaunchMsg};

verus! {

/// The fee, in uosmo, of creating a denom.
pub const DENOM_FEE: u128 = 10_000_000;
/// MBRN vesting starts with for the labs.
pub const INITIAL_ALLOCATION: u128 = 10_000_000_000_000;
/// Governance's shortest voting period, in blocks: a day.
pub const VOTING_PERIOD_BLOCKS: u64 = 14_400;
/// The smallest stake governance accepts as the proposal stake.
pub const REQUIRED_STAKE: u128 = 1_000_000_000;
/// How long a passed proposal may wait for execution, in blocks: 14 days.
pub const EXPIRATION_BLOCKS: u64 = 100_799;

/// Whether the reply to the instantiation of `c` was recorded: a failed
/// reply, or one naming no contract, changes nothing and is refused;
/// otherwise the address it names becomes that of `c` alone.
pub open spec fn reply_recorded(old: LaunchAddrs, new: LaunchAddrs, c: LaunchContract, result: Result<Vec<Event>, String>,
    r: Result<(), LaunchError>) -> bool {
    &&& r is Err ==> forall|o: LaunchContract| addr_of(new, o) == addr_of(old, o)
    &&& match result {
        Err(m) => r matches Err(LaunchError::ReplyFailed { msg }) && msg == m,
        Ok(events) => match named_address(events@) {
            None => r matches Err(LaunchError::NoInstantiateEvent),
            Some(a) => r is Ok && addr_of(new, c) == a
                && forall|o: LaunchContract| o != c ==> addr_of(new, o) == addr_of(old, o),
        },
    }
}

/// Whether the result is a success.
pub open spec fn unit_of(r: Result<Vec<LaunchMsg>, LaunchError>) -> Result<(), LaunchError> {
    match r {
        Ok(_) => Ok(()),
        Err(e) => Err(e),
    }
}

/// The messages once the osmosis proxy exists: the credit token's denom is
/// created, then MBRN's (whose reply the launch handles), each for the
/// fee, and the oracle is instantiated by this contract `contract`.
pub open spec fn op_msgs(msgs: Seq<LaunchMsg>, a: LaunchAddrs, cfg: LaunchConfig, contract: Seq<char>) -> bool {
    &&& msgs.len() == 3
    &&& msgs[0] matches LaunchMsg::CreateDenom { proxy, subdenom, fee_denom, fee_amount, reply }
        && proxy@ == a.osmosis_proxy@ && subdenom@ == "cdt"@ && fee_denom@ == "uosmo"@ && fee_amount == DENOM_FEE && !reply
    &&& msgs[1] matches LaunchMsg::CreateDenom { proxy, subdenom, fee_denom, fee_amount, reply }
        && proxy@ == a.osmosis_proxy@ && subdenom@ == "mbrn"@ && fee_denom@ == "uosmo"@ && fee_amount == DENOM_FEE && reply
    &&& msgs[2] matches LaunchMsg::InstantiateOracle { admin, code_id } && admin@ == contract && code_id == cfg.oracle_id
}

/// The message once the oracle exists: staking is instantiated by this
/// contract, with the proxy, MBRN, the router and a 10% spread.
pub open spec fn oracle_msgs(msgs: Seq<LaunchMsg>, a: LaunchAddrs, cfg: LaunchConfig, contract: Seq<char>) -> bool {
    &&& msgs.len() == 1
    &&& msgs[0] matches LaunchMsg::InstantiateStaking { admin, code_id, osmosis_proxy, mbrn_denom, dex_router,
            max_spread_percent }
        && admin@ == contract && code_id == cfg.staking_id && osmosis_proxy@ == a.osmosis_proxy@
        && mbrn_denom@ == cfg.mbrn_denom@ && dex_router@ == cfg.apollo_router@ && max_spread_percent == 10
}

/// The message once staking exists: vesting is instantiated by this
/// contract, with the labs' initial allocation.
pub open spec fn staking_msgs(msgs: Seq<LaunchMsg>, a: LaunchAddrs, cfg: LaunchConfig, contract: Seq<char>) -> bool {
    &&& msgs.len() == 1
    &&& msgs[0] matches LaunchMsg::InstantiateVesting { admin, code_id, initial_allocation, labs_addr, mbrn_denom,
            osmosis_proxy, staking }
        && admin@ == contract && code_id == cfg.vesting_id && initial_allocation == INITIAL_ALLOCATION
        && labs_addr@ == cfg.labs_addr@ && mbrn_denom@ == cfg.mbrn_denom@ && osmosis_proxy@ == a.osmosis_proxy@
        && staking@ == a.staking@
}

/// The message once vesting exists: governance is instantiated by this
/// contract, voting for 7 days (3 expedited), with no delay, expiring
/// after 14 days, half the vested power, a 33% quorum, a 51% threshold and
/// the two community links.
pub open spec fn vesting_msgs(msgs: Seq<LaunchMsg>, a: LaunchAddrs, cfg: LaunchConfig, contract: Seq<char>) -> bool {
    &&& msgs.len() == 1
    &&& msgs[0] matches LaunchMsg::InstantiateGovernance { admin, code_id, staking, vesting, vesting_multiplier_percent,
            proposal_voting_period, expedited_proposal_voting_period, proposal_effective_delay, proposal_expiration_period,
            proposal_required_stake, proposal_required_quorum, proposal_required_threshold, whitelisted_links }
        && admin@ == contract && code_id == cfg.governance_id && staking@ == a.staking@ && vesting@ == a.vesting@
        && vesting_multiplier_percent == 50
        && proposal_voting_period == VOTING_PERIOD_BLOCKS * 7
        && expedited_proposal_voting_period == VOTING_PERIOD_BLOCKS * 3
        && proposal_effective_delay == 0 && proposal_expiration_period == EXPIRATION_BLOCKS
        && proposal_required_stake == REQUIRED_STAKE
        && proposal_required_quorum@ == "0.33"@ && proposal_required_threshold@ == "0.51"@
        && whitelisted_links@.len() == 2
        && whitelisted_links@[0]@ == "https://discord.com/channels/1060217330258432010/"@
        && whitelisted_links@[1]@ == "https://commonwealth.im/membrane/"@
}

/// Whether message `m` makes governance the admin of `contract`.
pub open spec fn admin_to_gov(m: LaunchMsg, contract: Seq<char>, a: LaunchAddrs) -> bool {
    m matches LaunchMsg::UpdateAdmin { contract: c, admin } && c@ == contract && admin@ == a.governance@
}

/// The messages once governance exists: it becomes the admin of the osmosis
/// proxy, the oracle, staking, vesting and itself, then instantiates the
/// positions contract with a 1% liquidation fee, a 60 s oracle time limit,
/// a 2000 CDT debt minimum and TWAP timeframes of 60 and 480 minutes.
pub open spec fn gov_msgs(msgs: Seq<LaunchMsg>, a: LaunchAddrs, cfg: LaunchConfig) -> bool {
    &&& msgs.len() == 6
    &&& admin_to_gov(msgs[0], a.osmosis_proxy@, a)
    &&& admin_to_gov(msgs[1], a.oracle@, a)
    &&& admin_to_gov(msgs[2], a.staking@, a)
    &&& admin_to_gov(msgs[3], a.vesting@, a)
    &&& admin_to_gov(msgs[4], a.governance@, a)
    &&& msgs[5] matches LaunchMsg::InstantiatePositions { admin, code_id, liq_fee_percent, oracle_time_limit, debt_minimum,
            collateral_twap_timeframe, credit_twap_timeframe, dex_router, staking, oracle, osmosis_proxy }
        && admin@ == a.governance@ && code_id == cfg.positions_id && liq_fee_percent == 1 && oracle_time_limit == 60
        && debt_minimum == 2_000_000_000u128 && collateral_twap_timeframe == 60 && credit_twap_timeframe == 480
        && dex_router@ == cfg.apollo_router@ && staking@ == a.staking@ && oracle@ == a.oracle@
        && osmosis_proxy@ == a.osmosis_proxy@
}

/// The message once the Stability Pool exists: the liquidation queue is
/// instantiated under governance, with a 60 s wait.
pub open spec fn sp_msgs(msgs: Seq<LaunchMsg>, a: LaunchAddrs, cfg: LaunchConfig) -> bool {
    &&& msgs.len() == 1
    &&& msgs[0] matches LaunchMsg::InstantiateLiqQueue { admin, code_id, owner, positions, waiting_period }
        && admin@ == a.governance@ && code_id == cfg.liq_queue_id && owner@ == a.governance@
        && positions@ == a.positions@ && waiting_period == 60
}

/// The message once the liquidity check exists: the discount vault is
/// instantiated under governance; the address it gets as its osmosis
/// proxy is the positions contract's.
pub open spec fn lc_msgs(msgs: Seq<LaunchMsg>, a: LaunchAddrs, cfg: LaunchConfig) -> bool {
    &&& msgs.len() == 1
    &&& msgs[0] matches LaunchMsg::InstantiateDiscountVault { admin, code_id, owner, positions, osmosis_proxy }
        && admin@ == a.governance@ && code_id == cfg.discount_vault_id && owner@ == a.governance@
        && positions@ == a.positions@ && osmosis_proxy@ == a.positions@
}

/// The message once the discount vault exists: the system discounts are
/// instantiated under governance, asking 7 days in the network.
pub open spec fn vault_msgs(msgs: Seq<LaunchMsg>, a: LaunchAddrs, cfg: LaunchConfig) -> bool {
    &&& msgs.len() == 1
    &&& msgs[0] matches LaunchMsg::InstantiateSystemDiscounts { admin, code_id, owner, positions, oracle, staking,
            stability_pool, discount_vault, minimum_time_in_network }
        && admin@ == a.governance@ && code_id == cfg.system_discounts_id && owner@ == a.governance@
        && positions@ == a.positions@ && oracle@ == a.oracle@ && staking@ == a.staking@
        && stability_pool@ == a.stability_pool@ && discount_vault@ == a.discount_vault@ && minimum_time_in_network == 7
}

/// The message once the system discounts exist: the debt auction is
/// instantiated under governance, with a 60-minute TWAP and a 1% discount
/// growing by 1% every 15 minutes.
pub open spec fn discounts_msgs(msgs: Seq<LaunchMsg>, a: LaunchAddrs, cfg: LaunchConfig) -> bool {
    &&& msgs.len() == 1
    &&& msgs[0] matches LaunchMsg::InstantiateDebtAuction { admin, code_id, owner, positions, oracle, osmosis_proxy,
            twap_timeframe, mbrn_denom, initial_discount_percent, discount_increase_timeframe, discount_increase_percent }
        && admin@ == a.governance@ && code_id == cfg.mbrn_auction_id && owner@ == a.governance@
        && positions@ == a.positions@ && oracle@ == a.oracle@ && osmosis_proxy@ == a.osmosis_proxy@
        && twap_timeframe == 60 && mbrn_denom@ == cfg.mbrn_denom@ && initial_discount_percent == 1
        && discount_increase_timeframe == 15 * 60 && discount_increase_percent == 1
}

/// The messages once the osmosis proxy exists (see `op_msgs`).
pub fn op_messages(a: &LaunchAddrs, cfg: &LaunchConfig, contract: &String) -> (r: Vec<LaunchMsg>)
    ensures
        op_msgs(r@, *a, *cfg, contract@),
{
    let mut msgs: Vec<LaunchMsg> = Vec::new();
    msgs.push(LaunchMsg::CreateDenom { proxy: a.osmosis_proxy.clone(), subdenom: String::from_str("cdt"),
        fee_denom: String::from_str("uosmo"), fee_amount: DENOM_FEE, reply: false });
    msgs.push(LaunchMsg::CreateDenom { proxy: a.osmosis_proxy.clone(), subdenom: String::from_str("mbrn"),
        fee_denom: String::from_str("uosmo"), fee_amount: DENOM_FEE, reply: true });
    msgs.push(LaunchMsg::InstantiateOracle { admin: contract.clone(), code_id: cfg.oracle_id });
    msgs
}

/// The message once the oracle exists (see `oracle_msgs`).
pub fn oracle_messages(a: &LaunchAddrs, cfg: &LaunchConfig, contract: &String) -> (r: Vec<LaunchMsg>)
    ensures
        oracle_msgs(r@, *a, *cfg, contract@),
{
    let mut msgs: Vec<LaunchMsg> = Vec::new();
    msgs.push(LaunchMsg::InstantiateStaking {
        admin: contract.clone(),
        code_id: cfg.staking_id,
        osmosis_proxy: a.osmosis_proxy.clone(),
        mbrn_denom: cfg.mbrn_denom.clone(),
        dex_router: cfg.apollo_router.clone(),
        max_spread_percent: 10,
    });
    msgs
}

/// The message once staking exists (see `staking_msgs`).
pub fn staking_messages(a: &LaunchAddrs, cfg: &LaunchConfig, contract: &String) -> (r: Vec<LaunchMsg>)
    ensures
        staking_msgs(r@, *a, *cfg, contract@),
{
    let mut msgs: Vec<LaunchMsg> = Vec::new();
    msgs.push(LaunchMsg::InstantiateVesting {
        admin: contract.clone(),
        code_id: cfg.vesting_id,
        initial_allocation: INITIAL_ALLOCATION,
        labs_addr: cfg.labs_addr.clone(),
        mbrn_denom: cfg.mbrn_denom.clone(),
        osmosis_proxy: a.osmosis_proxy.clone(),
        staking: a.staking.clone(),
    });
    msgs
}

/// The message once vesting exists (see `vesting_msgs`).
pub fn vesting_messages(a: &LaunchAddrs, cfg: &LaunchConfig, contract: &String) -> (r: Vec<LaunchMsg>)
    ensures
        vesting_msgs(r@, *a, *cfg, contract@),
{
    let mut links: Vec<String> = Vec::new();
    links.push(String::from_str("https://discord.com/channels/1060217330258432010/"));
    links.push(String::from_str("https://commonwealth.im/membrane/"));
    let mut msgs: Vec<LaunchMsg> = Vec::new();
    msgs.push(LaunchMsg::InstantiateGovernance {
        admin: contract.clone(),
        code_id: cfg.governance_id,
        staking: a.staking.clone(),
        vesting: a.vesting.clone(),
        vesting_multiplier_percent: 50,
        proposal_voting_period: VOTING_PERIOD_BLOCKS * 7,
        expedited_proposal_voting_period: VOTING_PERIOD_BLOCKS * 3,
        proposal_effective_delay: 0,
        proposal_expiration_period: EXPIRATION_BLOCKS,
        proposal_required_stake: REQUIRED_STAKE,
        proposal_required_quorum: String::from_str("0.33"),
        proposal_required_threshold: String::from_str("0.51"),
        whitelisted_links: links,
    });
    msgs
}

/// The messages once governance exists (see `gov_msgs`).
pub fn gov_messages(a: &LaunchAddrs, cfg: &LaunchConfig) -> (r: Vec<LaunchMsg>)
    ensures
        gov_msgs(r@, *a, *cfg),
{
    let handover = a.admin_handover();
    let mut msgs: Vec<LaunchMsg> = Vec::new();
    let mut i: usize = 0;
    while i < handover.len()
        invariant
            i <= handover.len() == 5,
            msgs@.len() == i,
            forall|k: int| 0 <= k < i ==> admin_to_gov(#[trigger] msgs@[k], handover@[k].0@, *a),
            forall|k: int| 0 <= k < 5 ==> (#[trigger] handover@[k]).1@ == a.governance@,
        decreases handover.len() - i,
    {
        msgs.push(LaunchMsg::UpdateAdmin { contract: handover[i].0.clone(), admin: handover[i].1.clone() });
        i = i + 1;
    }
    msgs.push(LaunchMsg::InstantiatePositions {
        admin: a.governance.clone(),
        code_id: cfg.positions_id,
        liq_fee_percent: 1,
        oracle_time_limit: 60,
        debt_minimum: 2_000_000_000,
        collateral_twap_timeframe: 60,
        credit_twap_timeframe: 480,
        dex_router: cfg.apollo_router.clone(),
        staking: a.staking.clone(),
        oracle: a.oracle.clone(),
        osmosis_proxy: a.osmosis_proxy.clone(),
    });
    msgs
}

/// The message once the Stability Pool exists (see `sp_msgs`).
pub fn sp_messages(a: &LaunchAddrs, cfg: &LaunchConfig) -> (r: Vec<LaunchMsg>)
    ensures
        sp_msgs(r@, *a, *cfg),
{
    let mut msgs: Vec<LaunchMsg> = Vec::new();
    msgs.push(LaunchMsg::InstantiateLiqQueue {
        admin: a.governance.clone(),
        code_id: cfg.liq_queue_id,
        owner: a.governance.clone(),
        positions: a.positions.clone(),
        waiting_period: 60,
    });
    msgs
}

/// The message once the liquidity check exists (see `lc_msgs`).
pub fn lc_messages(a: &LaunchAddrs, cfg: &LaunchConfig) -> (r: Vec<LaunchMsg>)
    ensures
        lc_msgs(r@, *a, *cfg),
{
    let mut msgs: Vec<LaunchMsg> = Vec::new();
    msgs.push(LaunchMsg::InstantiateDiscountVault {
        admin: a.governance.clone(),
        code_id: cfg.discount_vault_id,
        owner: a.governance.clone(),
        positions: a.positions.clone(),
        osmosis_proxy: a.positions.clone(),
    });
    msgs
}

/// The message once the discount vault exists (see `vault_msgs`).
pub fn vault_messages(a: &LaunchAddrs, cfg: &LaunchConfig) -> (r: Vec<LaunchMsg>)
    ensures
        vault_msgs(r@, *a, *cfg),
{
    let mut msgs: Vec<LaunchMsg> = Vec::new();
    msgs.push(LaunchMsg::InstantiateSystemDiscounts {
        admin: a.governance.clone(),
        code_id: cfg.system_discounts_id,
        owner: a.governance.clone(),
        positions: a.positions.clone(),
        oracle: a.oracle.clone(),
        staking: a.staking.clone(),
        stability_pool: a.stability_pool.clone(),
        discount_vault: a.discount_vault.clone(),
        minimum_time_in_network: 7,
    });
    msgs
}

/// The message once the system discounts exist (see `discounts_msgs`).
pub fn discounts_messages(a: &LaunchAddrs, cfg: &LaunchConfig) -> (r: Vec<LaunchMsg>)
    ensures
        discounts_msgs(r@, *a, *cfg),
{
    let mut msgs: Vec<LaunchMsg> = Vec::new();
    msgs.push(LaunchMsg::InstantiateDebtAuction {
        admin: a.governance.clone(),
        code_id: cfg.mbrn_auction_id,
        owner: a.governance.clone(),
        positions: a.positions.clone(),
        oracle: a.oracle.clone(),
        osmosis_proxy: a.osmosis_proxy.clone(),
        twap_timeframe: 60,
        mbrn_denom: cfg.mbrn_denom.clone(),
        initial_discount_percent: 1,
        discount_increase_timeframe: 15 * 60,
        discount_increase_percent: 1,
    });
    msgs
}

impl LaunchAddrs {
    /// Handle the reply to the instantiation of the osmosis proxy by this
    /// contract `contract`: record it, then answer `op_messages`.
    pub fn handle_op_reply(&mut self, result: Result<Vec<Event>, String>, cfg: &LaunchConfig, contract: &String)
        -> (r: Result<Vec<LaunchMsg>, LaunchError>)
        ensures
            reply_recorded(*old(self), *final(self), LaunchContract::OsmosisProxy, result, unit_of(r)),
            r matches Ok(msgs) ==> op_msgs(msgs@, *final(self), *cfg, contract@),
    {
        self.reply_with(LaunchContract::OsmosisProxy, result)?;
        Ok(op_messages(self, cfg, contract))
    }

    /// Handle the reply to the instantiation of the oracle: record it, then
    /// answer `oracle_messages`.
    pub fn handle_oracle_reply(&mut self, result: Result<Vec<Event>, String>, cfg: &LaunchConfig, contract: &String)
        -> (r: Result<Vec<LaunchMsg>, LaunchError>)
        ensures
            reply_recorded(*old(self), *final(self), LaunchContract::Oracle, result, unit_of(r)),
            r matches Ok(msgs) ==> oracle_msgs(msgs@, *final(self), *cfg, contract@),
    {
        self.reply_with(LaunchContract::Oracle, result)?;
        Ok(oracle_messages(self, cfg, contract))
    }

    /// Handle the reply to the instantiation of staking: record it, then
    /// answer `staking_messages`.
    pub fn handle_staking_reply(&mut self, result: Result<Vec<Event>, String>, cfg: &LaunchConfig, contract: &String)
        -> (r: Result<Vec<LaunchMsg>, LaunchError>)
        ensures
            reply_recorded(*old(self), *final(self), LaunchContract::Staking, result, unit_of(r)),
            r matches Ok(msgs) ==> staking_msgs(msgs@, *final(self), *cfg, contract@),
    {
        self.reply_with(LaunchContract::Staking, result)?;
        Ok(staking_messages(self, cfg, contract))
    }

    /// Handle the reply to the instantiation of vesting: record it, then
    /// answer `vesting_messages`.
    pub fn handle_vesting_reply(&mut self, result: Result<Vec<Event>, String>, cfg: &LaunchConfig, contract: &String)
        -> (r: Result<Vec<LaunchMsg>, LaunchError>)
        ensures
            reply_recorded(*old(self), *final(self), LaunchContract::Vesting, result, unit_of(r)),
            r matches Ok(msgs) ==> vesting_msgs(msgs@, *final(self), *cfg, contract@),
    {
        self.reply_with(LaunchContract::Vesting, result)?;
        Ok(vesting_messages(self, cfg, contract))
    }

    /// Handle the reply to the instantiation of governance: record it, then
    /// answer `gov_messages`.
    pub fn handle_gov_reply(&mut self, result: Result<Vec<Event>, String>, cfg: &LaunchConfig)
        -> (r: Result<Vec<LaunchMsg>, LaunchError>)
        ensures
            reply_recorded(*old(self), *final(self), LaunchContract::Governance, result, unit_of(r)),
            r matches Ok(msgs) ==> gov_msgs(msgs@, *final(self), *cfg),
    {
        self.reply_with(LaunchContract::Governance, result)?;
        Ok(gov_messages(self, cfg))
    }

    /// Handle the reply to the instantiation of the Stability Pool: record
    /// it, then answer `sp_messages`.
    pub fn handle_sp_reply(&mut self, result: Result<Vec<Event>, String>, cfg: &LaunchConfig)
        -> (r: Result<Vec<LaunchMsg>, LaunchError>)
        ensures
            reply_recorded(*old(self), *final(self), LaunchContract::StabilityPool, result, unit_of(r)),
            r matches Ok(msgs) ==> sp_msgs(msgs@, *final(self), *cfg),
    {
        self.reply_with(LaunchContract::StabilityPool, result)?;
        Ok(sp_messages(self, cfg))
    }

    /// Handle the reply to the instantiation of the liquidity check: record
    /// it, then answer `lc_messages`.
    pub fn handle_lc_reply(&mut self, result: Result<Vec<Event>, String>, cfg: &LaunchConfig)
        -> (r: Result<Vec<LaunchMsg>, LaunchError>)
        ensures
            reply_recorded(*old(self), *final(self), LaunchContract::LiquidityCheck, result, unit_of(r)),
            r matches Ok(msgs) ==> lc_msgs(msgs@, *final(self), *cfg),
    {
        self.reply_with(LaunchContract::LiquidityCheck, result)?;
        Ok(lc_messages(self, cfg))
    }

    /// Handle the reply to the instantiation of the discount vault: record
    /// it, then answer `vault_messages`.
    pub fn handle_discount_vault_reply(&mut self, result: Result<Vec<Event>, String>, cfg: &LaunchConfig)
        -> (r: Result<Vec<LaunchMsg>, LaunchError>)
        ensures
            reply_recorded(*old(self), *final(self), LaunchContract::DiscountVault, result, unit_of(r)),
            r matches Ok(msgs) ==> vault_msgs(msgs@, *final(self), *cfg),
    {
        self.reply_with(LaunchContract::DiscountVault, result)?;
        Ok(vault_messages(self, cfg))
    }

    /// Handle the reply to the instantiation of the system discounts: record
    /// them, then answer `discounts_messages`.
    pub fn handle_system_discounts_reply(&mut self, result: Result<Vec<Event>, String>, cfg: &LaunchConfig)
        -> (r: Result<Vec<LaunchMsg>, LaunchError>)
        ensures
            reply_recorded(*old(self), *final(self), LaunchContract::SystemDiscounts, result, unit_of(r)),
            r matches Ok(msgs) ==> discounts_msgs(msgs@, *final(self), *cfg),
    {
        self.reply_with(LaunchContract::SystemDiscounts, result)?;
        Ok(discounts_messages(self, cfg))
    }
}

/// A change of the launch configuration: the denoms given are replaced.
#[derive(Debug)]
pub struct ConfigUpdate {
    pub credit_denom: Option<String>,
    pub mbrn_denom: Option<String>,
    pub osmo_denom: Option<String>,
    pub usdc_denom: Option<String>,
}

/// `new` where given, else `old`.
pub open spec fn updated(old: Seq<char>, new: Option<String>) -> Seq<char> {
    match new {
        Some(s) => s@,
        None => old,
    }
}

fn replace_text(field: &mut String, new: Option<String>)
    ensures
        final(field)@ == updated(old(field)@, new),
{
    if let Some(s) = new {
        *field = s;
    }
}

impl LaunchConfig {
    /// The owner `sender` replaces the denoms given in `update`; anyone
    /// else is refused.
    pub fn update_config(&mut self, sender: &String, update: ConfigUpdate) -> (r: Result<(), LaunchError>)
        ensures
            sender@ != old(self).owner@ ==> (r matches Err(LaunchError::Unauthorized) && *final(self) == *old(self)),
            sender@ == old(self).owner@ ==> r is Ok && *final(self) == (LaunchConfig {
                credit_denom: final(self).credit_denom,
                mbrn_denom: final(self).mbrn_denom,
                osmo_denom: final(self).osmo_denom,
                usdc_denom: final(self).usdc_denom,
                ..*old(self)
            }),
            sender@ == old(self).owner@ ==> {
                &&& final(self).credit_denom@ == updated(old(self).credit_denom@, update.credit_denom)
                &&& final(self).mbrn_denom@ == updated(old(self).mbrn_denom@, update.mbrn_denom)
                &&& final(self).osmo_denom@ == updated(old(self).osmo_denom@, update.osmo_denom)
                &&& final(self).usdc_denom@ == updated(old(self).usdc_denom@, update.usdc_denom)
            },
    {
        if *sender != self.owner {
            return Err(LaunchError::Unauthorized);
        }
        replace_text(&mut self.credit_denom, update.credit_denom);
        replace_text(&mut self.mbrn_denom, update.mbrn_denom);
        replace_text(&mut self.osmo_denom, update.osmo_denom);
        replace_text(&mut self.usdc_denom, update.usdc_denom);
        Ok(())
    }

    /// Handle the reply to the creation of the denoms: where it succeeded,
    /// the denoms the osmosis proxy lists (`denoms`) become the credit
    /// token's (the first) and MBRN's (the second).
    pub fn handle_create_denom_reply(&mut self, result: Result<(), String>, denoms: &Vec<String>)
        -> (r: Result<(), LaunchError>)
        ensures
            r is Err ==> *final(self) == *old(self),
            match result {
                Err(m) => r matches Err(LaunchError::ReplyFailed { msg }) && msg == m,
                Ok(_) => if denoms@.len() < 2 {
                    r matches Err(LaunchError::MissingDenoms)
                } else {
                    r is Ok && *final(self) == (LaunchConfig {
                        credit_denom: final(self).credit_denom,
                        mbrn_denom: final(self).mbrn_denom,
                        ..*old(self)
                    }) && final(self).credit_denom == denoms@[0] && final(self).mbrn_denom == denoms@[1]
                },
            },
    {
        if let Err(m) = result {
            return Err(LaunchError::ReplyFailed { msg: m });
        }
        let (credit, mbrn) = save_denoms(denoms)?;
        self.credit_denom = credit;
        self.mbrn_denom = mbrn;
        Ok(())
    }
}

impl CreditPools {
    /// Handle the reply to the creation of a balancer pool: where it
    /// succeeded and carried the pool's id, record it (see
    /// `save_balancer_pool`).
    pub fn handle_balancer_reply(&mut self, result: Result<Option<u64>, String>) -> (r: Result<(), LaunchError>)
        ensures
            match result {
                Err(m) => r matches Err(LaunchError::ReplyFailed { msg }) && msg == m
                    && *final(self) == *old(self),
                Ok(None) => r is Ok && *final(self) == *old(self),
                Ok(Some(id)) => r is Ok && final(self).stableswap == old(self).stableswap
                    && (old(self).osmo == 0 ==> final(self).osmo == id && final(self).atom == old(self).atom)
                    && (old(self).osmo != 0 ==> final(self).atom == id && final(self).osmo == old(self).osmo),
            },
    {
        match result {
            Err(m) => Err(LaunchError::ReplyFailed { msg: m }),
            Ok(None) => Ok(()),
            Ok(Some(id)) => {
                self.save_balancer_pool(id);
                Ok(())
            },
        }
    }
}

} // verus!
