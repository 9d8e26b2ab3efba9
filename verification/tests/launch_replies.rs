use membrane_contracts::launch::replies::{
    auction_messages, handle_stableswap_reply, BasketCollateral, LaunchConfig, LaunchMsg, SECONDS_PER_DAY,
};
use membrane_contracts::launch::steps::ConfigUpdate;
use membrane_contracts::launch::{CreditPools, Event, EventAttribute, LaunchAddrs, LaunchError};
use membrane_contracts::liq_queue::types::AssetInfo;
use membrane_contracts::liquidity_check::PoolType;

fn config() -> LaunchConfig {
    LaunchConfig {
        owner: "labs".to_string(),
        labs_addr: "labs".to_string(),
        mbrn_denom: "factory/launch/umbrn".to_string(),
        credit_denom: "factory/launch/ucdt".to_string(),
        usdc_denom: "uusdc".to_string(),
        atom_denom: "uatom".to_string(),
        osmo_denom: "uosmo".to_string(),
        atomosmo_pool_id: 1,
        osmousdc_pool_id: 678,
        stability_pool_id: 21,
        liquidity_check_id: 22,
        margin_proxy_id: 23,
        oracle_id: 12,
        staking_id: 13,
        vesting_id: 14,
        governance_id: 15,
        positions_id: 16,
        liq_queue_id: 18,
        discount_vault_id: 19,
        system_discounts_id: 20,
        mbrn_auction_id: 24,
        apollo_router: "apollo".to_string(),
    }
}

fn addrs() -> LaunchAddrs {
    let mut a = LaunchAddrs::new();
    a.osmosis_proxy = "proxy".to_string();
    a.oracle = "oracle".to_string();
    a.staking = "staking".to_string();
    a.vesting = "vesting".to_string();
    a.governance = "gov".to_string();
    a.positions = "positions".to_string();
    a.stability_pool = "sp".to_string();
    a.liq_queue = "lq".to_string();
    a.liquidity_check = "lc".to_string();
    a.discount_vault = "vault".to_string();
    a.system_discounts = "discounts".to_string();
    a
}

fn instantiated(address: &str) -> Vec<Event> {
    vec![Event {
        ty: "instantiate".to_string(),
        attributes: vec![EventAttribute { key: "contract_address".to_string(), value: address.to_string() }],
    }]
}

fn native(denom: &str) -> AssetInfo {
    AssetInfo::NativeToken { denom: denom.to_string() }
}

#[test]
fn stableswap_reply_incentivises_and_hands_over_the_pool() {
    let mut pools = CreditPools { stableswap: 0, atom: 2, osmo: 1 };
    let balances = vec![("uosmo".to_string(), 5u128), ("gamm/pool/3".to_string(), 100u128), ("gamm/pool/4".to_string(), 9u128)];
    let msgs = handle_stableswap_reply(&mut pools, Ok(Some((7, "gamm/pool/7".to_string()))), &balances, &addrs(), &config(),
        &"launch".to_string())
        .unwrap();
    assert_eq!(msgs.len(), 5);
    assert!(matches!(&msgs[0], LaunchMsg::MintTokens { proxy, denom, amount, mint_to }
        if proxy == "proxy" && denom == "factory/launch/umbrn" && *amount == 1_000_000_000_000 && mint_to == "launch"));
    assert!(matches!(&msgs[1], LaunchMsg::CreateGauge { owner, lock_denom, lock_seconds, reward_denom, reward_amount, epochs }
        if owner == "gov" && lock_denom == "gamm/pool/7" && *lock_seconds == 14 * SECONDS_PER_DAY
            && reward_denom == "factory/launch/umbrn" && reward_amount == "1_000_000_000_000" && *epochs == 90));
    match &msgs[2] {
        LaunchMsg::SetCreditPools { positions, credit_pool_infos, credit_twap } => {
            assert_eq!(positions, "positions");
            assert_eq!(
                credit_pool_infos,
                &vec![PoolType::StableSwap { pool_id: 7 }, PoolType::Balancer { pool_id: 2 }, PoolType::Balancer { pool_id: 1 }]
            );
            assert_eq!(credit_twap.pool_id, 7);
            assert_eq!(credit_twap.base_denom, "factory/launch/ucdt");
            assert_eq!(credit_twap.quote_denom, "uusdc");
        },
        other => panic!("unexpected {:?}", other),
    }
    assert!(matches!(&msgs[3], LaunchMsg::AcceptLPs { vault, pool_ids } if vault == "vault" && pool_ids == &vec![7, 2, 1]));
    assert!(matches!(&msgs[4], LaunchMsg::BankSend { to, denom, amount }
        if to == "gov" && denom == "gamm/pool/3" && *amount == 100));
    // The new pool is saved as the stableswap pool.
    assert_eq!((pools.stableswap, pools.atom, pools.osmo), (7, 2, 1));
}

#[test]
fn stableswap_reply_errors() {
    let mut pools = CreditPools { stableswap: 5, atom: 2, osmo: 1 };
    let err = handle_stableswap_reply(&mut pools, Ok(None), &vec![("uosmo".to_string(), 5u128)], &addrs(), &config(),
        &"launch".to_string())
        .unwrap_err();
    assert!(matches!(err, LaunchError::NoPoolShares));
    let err = handle_stableswap_reply(&mut pools, Ok(Some((8, "gamm/pool/8".to_string()))), &vec![], &addrs(), &config(),
        &"launch".to_string())
        .unwrap_err();
    assert!(matches!(err, LaunchError::NoPoolShares));
    assert_eq!(pools.stableswap, 5);
    let err = handle_stableswap_reply(&mut pools, Err("out of gas".to_string()), &vec![], &addrs(), &config(), &"launch".to_string())
        .unwrap_err();
    assert!(matches!(err, LaunchError::ReplyFailed { msg } if msg == "out of gas"));
    // Without the pool in the reply the recorded stableswap pool is used.
    let msgs = handle_stableswap_reply(&mut pools, Ok(None), &vec![("gamm/pool/9".to_string(), 1u128)], &addrs(), &config(),
        &"launch".to_string())
        .unwrap();
    assert!(matches!(&msgs[1], LaunchMsg::CreateGauge { lock_denom, .. } if lock_denom.is_empty()));
    assert!(matches!(&msgs[3], LaunchMsg::AcceptLPs { pool_ids, .. } if pool_ids == &vec![5, 2, 1]));
}

#[test]
fn auction_reply_hands_the_system_to_governance() {
    let mut a = addrs();
    let basket = vec![
        BasketCollateral { asset: native("uatom"), pool_id: None },
        BasketCollateral { asset: native("gamm/pool/1"), pool_id: Some(1) },
        BasketCollateral { asset: native("uusdc"), pool_id: None },
        BasketCollateral { asset: native("gamm/pool/678"), pool_id: Some(678) },
    ];
    let msgs = a.handle_auction_reply(Ok(instantiated("auction")), &config(), &basket).unwrap();
    assert_eq!(a.mbrn_auction, "auction");
    assert_eq!(msgs.len(), 7);
    match &msgs[0] {
        LaunchMsg::UpdateProxy { proxy, owners, debt_auction, positions, liquidity } => {
            assert_eq!(proxy, "proxy");
            assert_eq!(owners.len(), 6);
            assert_eq!(owners[5].owner, "auction");
            assert!(owners[4].non_token_contract_auth);
            assert_eq!(debt_auction, "auction");
            assert_eq!(positions, "positions");
            assert_eq!(liquidity, "lc");
        },
        other => panic!("unexpected {:?}", other),
    }
    assert!(matches!(&msgs[1], LaunchMsg::UpdateOracle { oracle, owner, positions }
        if oracle == "oracle" && owner == "gov" && positions == "positions"));
    assert!(matches!(&msgs[3], LaunchMsg::UpdateVesting { vesting, owner } if vesting == "vesting" && owner == "gov"));
    assert!(matches!(&msgs[4], LaunchMsg::UpdatePositions { debt_auction, discounts, stability_pool, .. }
        if debt_auction == "auction" && discounts == "discounts" && stability_pool == "sp"));
    match &msgs[5] {
        LaunchMsg::SetSupplyCaps { positions, caps } => {
            assert_eq!(positions, "positions");
            assert_eq!(caps.len(), 2);
            assert!(matches!(&caps[0].asset, AssetInfo::NativeToken { denom } if denom == "gamm/pool/1"));
            assert!(matches!(&caps[1].asset, AssetInfo::NativeToken { denom } if denom == "gamm/pool/678"));
            assert!(caps.iter().all(|c| c.lp && c.supply_cap_percent == 100 && c.stability_pool_ratio_percent == Some(33)));
        },
        other => panic!("unexpected {:?}", other),
    }
    assert!(matches!(&msgs[6], LaunchMsg::InstantiateMarginProxy { code_id, router, max_slippage_percent, .. }
        if *code_id == 23 && router == "apollo" && *max_slippage_percent == 1));

    // A failed reply records nothing.
    let mut b = addrs();
    let err = b.handle_auction_reply(Err("failed".to_string()), &config(), &basket).unwrap_err();
    assert!(matches!(err, LaunchError::ReplyFailed { .. }));
    assert_eq!(b.mbrn_auction, "");
    assert_eq!(auction_messages(&a, &config(), &vec![]).len(), 7);
}

#[test]
fn cdp_reply_prices_the_collateral_and_creates_the_basket() {
    let mut a = addrs();
    let msgs = a.handle_cdp_reply(Ok(instantiated("positions2")), &config()).unwrap();
    assert_eq!(a.positions, "positions2");
    assert_eq!(msgs.len(), 5);
    match &msgs[0] {
        LaunchMsg::AddOracleAsset { oracle, denom, basket_id, twap_pools, static_price } => {
            assert_eq!(oracle, "oracle");
            assert_eq!(denom, "uatom");
            assert_eq!(*basket_id, 1);
            assert_eq!(twap_pools.len(), 2);
            assert_eq!((twap_pools[0].pool_id, twap_pools[0].base_denom.as_str(), twap_pools[0].quote_denom.as_str()),
                (1, "uatom", "uosmo"));
            assert_eq!((twap_pools[1].pool_id, twap_pools[1].base_denom.as_str(), twap_pools[1].quote_denom.as_str()),
                (678, "uosmo", "uusdc"));
            assert_eq!(*static_price, None);
        },
        other => panic!("unexpected {:?}", other),
    }
    assert!(matches!(&msgs[2], LaunchMsg::AddOracleAsset { denom, twap_pools, static_price, .. }
        if denom == "uusdc" && twap_pools.is_empty() && *static_price == Some(1_000_000_000_000_000_000)));
    match &msgs[3] {
        LaunchMsg::CreateBasket { positions, basket_id, collateral, credit_denom, base_interest_percent } => {
            assert_eq!(positions, "positions2");
            assert_eq!(*basket_id, 1);
            assert_eq!(credit_denom, "factory/launch/ucdt");
            assert_eq!(*base_interest_percent, 1);
            let ltvs: Vec<(&str, u64, u64)> = collateral
                .iter()
                .map(|c| (c.denom.as_str(), c.max_borrow_ltv_percent, c.max_ltv_percent))
                .collect();
            assert_eq!(ltvs, vec![("uatom", 40, 60), ("uosmo", 40, 60), ("uusdc", 90, 96)]);
        },
        other => panic!("unexpected {:?}", other),
    }
    assert!(matches!(&msgs[4], LaunchMsg::InstantiateStabilityPool { code_id, positions, liq_premium_percent, .. }
        if *code_id == 21 && positions == "positions2" && *liq_premium_percent == 10));
}

#[test]
fn lq_reply_adds_the_lp_collateral() {
    let mut a = addrs();
    let err = a.handle_lq_reply(Ok(vec![]), &config()).unwrap_err();
    assert!(matches!(err, LaunchError::NoInstantiateEvent));
    let msgs = a.handle_lq_reply(Ok(instantiated("lq2")), &config()).unwrap();
    assert_eq!(msgs.len(), 3);
    match &msgs[0] {
        LaunchMsg::EditBasket { added, liq_queue, supply_caps, negative_rates, cpc_margin_percent, .. } => {
            assert_eq!(added.denom, "1");
            let pool = added.pool.as_ref().unwrap();
            assert_eq!(pool.pool_id, 1);
            assert_eq!(pool.asset_denoms, vec!["uatom".to_string(), "uosmo".to_string()]);
            assert_eq!(liq_queue.as_deref(), Some("lq2"));
            let caps = supply_caps.as_ref().unwrap();
            assert_eq!(caps.len(), 3);
            assert!(matches!(&caps[0].asset, AssetInfo::NativeToken { denom } if denom == "uosmo"));
            assert_eq!(*negative_rates, Some(false));
            assert_eq!(*cpc_margin_percent, Some(1));
        },
        other => panic!("unexpected {:?}", other),
    }
    assert!(matches!(&msgs[1], LaunchMsg::EditBasket { added, liq_queue: None, supply_caps: None, .. }
        if added.denom == "678"));
    assert!(matches!(&msgs[2], LaunchMsg::InstantiateLiquidityCheck { code_id, owner, .. }
        if *code_id == 22 && owner == "gov"));
}

#[test]
fn op_reply_creates_the_denoms_and_the_oracle() {
    let mut a = LaunchAddrs::new();
    let msgs = a.handle_op_reply(Ok(instantiated("proxy2")), &config(), &"launch".to_string()).unwrap();
    assert_eq!(a.osmosis_proxy, "proxy2");
    assert_eq!(msgs.len(), 3);
    assert!(matches!(&msgs[0], LaunchMsg::CreateDenom { proxy, subdenom, fee_denom, fee_amount, reply }
        if proxy == "proxy2" && subdenom == "cdt" && fee_denom == "uosmo" && *fee_amount == 10_000_000 && !*reply));
    assert!(matches!(&msgs[1], LaunchMsg::CreateDenom { subdenom, fee_amount, reply, .. }
        if subdenom == "mbrn" && *fee_amount == 10_000_000 && *reply));
    assert!(matches!(&msgs[2], LaunchMsg::InstantiateOracle { admin, code_id } if admin == "launch" && *code_id == 12));
    let err = a.handle_op_reply(Err("failed".to_string()), &config(), &"launch".to_string()).unwrap_err();
    assert!(matches!(err, LaunchError::ReplyFailed { .. }));
}

#[test]
fn early_replies_instantiate_staking_vesting_and_governance() {
    let mut a = addrs();
    let msgs = a.handle_oracle_reply(Ok(instantiated("oracle2")), &config(), &"launch".to_string()).unwrap();
    assert_eq!(a.oracle, "oracle2");
    assert!(matches!(&msgs[..], [LaunchMsg::InstantiateStaking { admin, code_id, osmosis_proxy, dex_router,
        max_spread_percent, .. }] if admin == "launch" && *code_id == 13 && osmosis_proxy == "proxy" && dex_router == "apollo"
            && *max_spread_percent == 10));
    let msgs = a.handle_staking_reply(Ok(instantiated("staking2")), &config(), &"launch".to_string()).unwrap();
    assert!(matches!(&msgs[..], [LaunchMsg::InstantiateVesting { code_id, initial_allocation, labs_addr, staking, .. }]
        if *code_id == 14 && *initial_allocation == 10_000_000_000_000 && labs_addr == "labs" && staking == "staking2"));
    let msgs = a.handle_vesting_reply(Ok(instantiated("vesting2")), &config(), &"launch".to_string()).unwrap();
    match &msgs[..] {
        [LaunchMsg::InstantiateGovernance { code_id, vesting, proposal_voting_period, expedited_proposal_voting_period,
            proposal_expiration_period, proposal_required_stake, proposal_required_quorum, proposal_required_threshold,
            whitelisted_links, vesting_multiplier_percent, .. }] => {
            assert_eq!(*code_id, 15);
            assert_eq!(vesting, "vesting2");
            assert_eq!((*proposal_voting_period, *expedited_proposal_voting_period), (100_800, 43_200));
            assert_eq!(*proposal_expiration_period, 100_799);
            assert_eq!(*proposal_required_stake, 1_000_000_000);
            assert_eq!((proposal_required_quorum.as_str(), proposal_required_threshold.as_str()), ("0.33", "0.51"));
            assert_eq!(whitelisted_links.len(), 2);
            assert_eq!(*vesting_multiplier_percent, 50);
        },
        other => panic!("unexpected {:?}", other),
    }
}

#[test]
fn gov_reply_hands_admin_over_and_instantiates_positions() {
    let mut a = addrs();
    let msgs = a.handle_gov_reply(Ok(instantiated("gov2")), &config()).unwrap();
    assert_eq!(msgs.len(), 6);
    let handed: Vec<(&str, &str)> = msgs[..5]
        .iter()
        .map(|m| match m {
            LaunchMsg::UpdateAdmin { contract, admin } => (contract.as_str(), admin.as_str()),
            other => panic!("unexpected {:?}", other),
        })
        .collect();
    assert_eq!(handed, vec![("proxy", "gov2"), ("oracle", "gov2"), ("staking", "gov2"), ("vesting", "gov2"), ("gov2", "gov2")]);
    assert!(matches!(&msgs[5], LaunchMsg::InstantiatePositions { admin, code_id, debt_minimum, credit_twap_timeframe, .. }
        if admin == "gov2" && *code_id == 16 && *debt_minimum == 2_000_000_000 && *credit_twap_timeframe == 480));
}

#[test]
fn late_replies_instantiate_the_rest() {
    let mut a = addrs();
    let msgs = a.handle_sp_reply(Ok(instantiated("sp2")), &config()).unwrap();
    assert_eq!(a.stability_pool, "sp2");
    assert!(matches!(&msgs[..], [LaunchMsg::InstantiateLiqQueue { code_id, owner, waiting_period, .. }]
        if *code_id == 18 && owner == "gov" && *waiting_period == 60));
    let msgs = a.handle_lc_reply(Ok(instantiated("lc2")), &config()).unwrap();
    assert!(matches!(&msgs[..], [LaunchMsg::InstantiateDiscountVault { code_id, positions, osmosis_proxy, .. }]
        if *code_id == 19 && positions == "positions" && osmosis_proxy == "positions"));
    let msgs = a.handle_discount_vault_reply(Ok(instantiated("vault2")), &config()).unwrap();
    assert!(matches!(&msgs[..], [LaunchMsg::InstantiateSystemDiscounts { code_id, stability_pool, discount_vault,
        minimum_time_in_network, .. }] if *code_id == 20 && stability_pool == "sp2" && discount_vault == "vault2"
            && *minimum_time_in_network == 7));
    let msgs = a.handle_system_discounts_reply(Ok(instantiated("discounts2")), &config()).unwrap();
    assert_eq!(a.system_discounts, "discounts2");
    assert!(matches!(&msgs[..], [LaunchMsg::InstantiateDebtAuction { code_id, mbrn_denom, discount_increase_timeframe,
        initial_discount_percent, .. }] if *code_id == 24 && mbrn_denom == "factory/launch/umbrn"
            && *discount_increase_timeframe == 900 && *initial_discount_percent == 1));
    let err = a.handle_sp_reply(Ok(vec![]), &config()).unwrap_err();
    assert!(matches!(err, LaunchError::NoInstantiateEvent));
    assert_eq!(a.stability_pool, "sp2");
}

#[test]
fn launch_update_config() {
    let mut cfg = config();
    let update = || ConfigUpdate {
        credit_denom: Some(String::from("new_credit_denom")),
        mbrn_denom: Some(String::from("new_mbrn_denom")),
        osmo_denom: Some(String::from("new_osmo_denom")),
        usdc_denom: Some(String::from("new_usdc_denom")),
    };
    let err = cfg.update_config(&"sender88".to_string(), update()).unwrap_err();
    assert!(matches!(err, LaunchError::Unauthorized));
    assert_eq!(cfg.mbrn_denom, "factory/launch/umbrn");
    cfg.update_config(&"labs".to_string(), update()).unwrap();
    assert_eq!(cfg.mbrn_denom, String::from("new_mbrn_denom"));
    assert_eq!(cfg.credit_denom, String::from("new_credit_denom"));
    assert_eq!(cfg.osmo_denom, String::from("new_osmo_denom"));
    assert_eq!(cfg.usdc_denom, String::from("new_usdc_denom"));
    assert_eq!(cfg.atom_denom, "uatom");
}

#[test]
fn denom_and_balancer_replies_are_recorded() {
    let mut cfg = config();
    let err = cfg.handle_create_denom_reply(Ok(()), &vec!["only".to_string()]).unwrap_err();
    assert!(matches!(err, LaunchError::MissingDenoms));
    cfg.handle_create_denom_reply(Ok(()), &vec!["factory/x/cdt".to_string(), "factory/x/mbrn".to_string()]).unwrap();
    assert_eq!((cfg.credit_denom.as_str(), cfg.mbrn_denom.as_str()), ("factory/x/cdt", "factory/x/mbrn"));

    let mut pools = CreditPools { stableswap: 0, atom: 0, osmo: 0 };
    pools.handle_balancer_reply(Ok(Some(1))).unwrap();
    pools.handle_balancer_reply(Ok(None)).unwrap();
    pools.handle_balancer_reply(Ok(Some(2))).unwrap();
    assert_eq!((pools.stableswap, pools.atom, pools.osmo), (0, 2, 1));
    assert!(pools.handle_balancer_reply(Err("x".to_string())).is_err());
}
