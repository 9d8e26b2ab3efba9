use membrane_contracts::discounts::{get_sp_funds, get_staked_MBRN_value, Claimable, Discounts, DiscountsError};
use membrane_contracts::launch::{
    find_pool_share, instantiated_address, next_of, save_denoms, CreditPools, Event, EventAttribute, LaunchAddrs,
    LaunchContract, LaunchError,
};
use membrane_contracts::liquidity_check::PoolType;

const ONE: u128 = 1_000_000_000_000_000_000;

fn discounts() -> Discounts {
    Discounts::instantiate(None, "owner".to_string(), "mbrn".to_string(), "positions".to_string(), "oracle".to_string(),
        "staking".to_string(), "sp".to_string(), "gauge".to_string(), "vault".to_string())
}

#[test]
fn staked_value_counts_rewards_and_stake() {
    // 10 MBRN staked plus 2 accrued at a price of 0.5, and 4 of a reward at a price of 3.
    let v = get_staked_MBRN_value(10, 2, &vec![Claimable { amount: 4, price: 3 * ONE }], ONE / 2).unwrap();
    assert_eq!(v, 12 * ONE + 6 * ONE);
    let err = get_staked_MBRN_value(u128::MAX, 1, &vec![], ONE).unwrap_err();
    assert!(matches!(err, DiscountsError::Overflow));
}

#[test]
fn sp_funds_sum_the_deposits() {
    assert_eq!(get_sp_funds(&vec![ONE, 2 * ONE, 3]).unwrap(), 3 * ONE + 3);
    assert!(matches!(get_sp_funds(&vec![u128::MAX, 1]).unwrap_err(), DiscountsError::Overflow));
}

#[test]
fn discounts_update_config() {
    let mut d = discounts();
    let err = d.update_config(&"stranger".to_string(), None, None, None, None, None, None, None).unwrap_err();
    assert!(matches!(err, DiscountsError::Unauthorized));
    d.update_config(&"owner".to_string(), Some("new_owner".to_string()), Some("new_oracle".to_string()), None, None,
        None, None, Some("new_vault".to_string()))
        .unwrap();
    assert_eq!(d.config.owner, "new_owner".to_string());
    assert_eq!(d.config.oracle_contract, "new_oracle".to_string());
    assert_eq!(d.config.discount_vault_contract, "new_vault".to_string());
    assert_eq!(d.config.positions_contract, "positions".to_string());
    assert_eq!(d.config.mbrn_denom, "mbrn".to_string());
}

fn attr(key: &str, value: &str) -> EventAttribute {
    EventAttribute { key: key.to_string(), value: value.to_string() }
}

#[test]
fn launch_records_each_contract_and_moves_on() {
    let mut addrs = LaunchAddrs::new();
    let events = vec![
        Event { ty: "message".to_string(), attributes: vec![attr("sender", "me")] },
        Event {
            ty: "instantiate".to_string(),
            attributes: vec![attr("code_id", "3"), attr("contract_address", "osmo1proxy"), attr("contract_address", "x")],
        },
    ];
    let next = addrs.handle_instantiate_reply(LaunchContract::OsmosisProxy, Ok(events)).unwrap();
    assert_eq!(next, Some(LaunchContract::Oracle));
    assert_eq!(addrs.osmosis_proxy, "osmo1proxy".to_string());
    assert_eq!(addrs.oracle, String::new());

    let err = addrs.handle_instantiate_reply(LaunchContract::Oracle, Err("failed".to_string())).unwrap_err();
    assert!(matches!(err, LaunchError::ReplyFailed { msg } if msg == "failed"));
    let err = instantiated_address(&vec![Event { ty: "message".to_string(), attributes: vec![] }]).unwrap_err();
    assert!(matches!(err, LaunchError::NoInstantiateEvent));

    assert_eq!(next_of(LaunchContract::SystemDiscounts), Some(LaunchContract::MbrnAuction));
    assert_eq!(next_of(LaunchContract::MbrnAuction), None);

    let handover = addrs.admin_handover();
    assert_eq!(handover.len(), 5);
    assert_eq!(handover[0], ("osmo1proxy".to_string(), String::new()));
}

#[test]
fn launch_pools_and_denoms() {
    let mut pools = CreditPools { stableswap: 0, atom: 0, osmo: 0 };
    pools.save_balancer_pool(5);
    pools.save_balancer_pool(6);
    pools.stableswap = 7;
    assert_eq!(pools.to_vec(), vec![7, 6, 5]);
    assert_eq!(
        pools.credit_pool_infos(),
        vec![PoolType::StableSwap { pool_id: 7 }, PoolType::Balancer { pool_id: 6 }, PoolType::Balancer { pool_id: 5 }]
    );

    let (credit, mbrn) = save_denoms(&vec!["factory/cdt".to_string(), "factory/mbrn".to_string()]).unwrap();
    assert_eq!((credit.as_str(), mbrn.as_str()), ("factory/cdt", "factory/mbrn"));
    assert!(matches!(save_denoms(&vec!["one".to_string()]).unwrap_err(), LaunchError::MissingDenoms));

    let balances = vec![("uosmo".to_string(), 5u128), ("gamm/pool/3".to_string(), 9u128), ("gamm/pool/4".to_string(), 1u128)];
    assert_eq!(find_pool_share(&balances).unwrap(), ("gamm/pool/3".to_string(), 9));
    assert!(matches!(find_pool_share(&vec![("uosmo".to_string(), 5u128)]).unwrap_err(), LaunchError::NoPoolShares));
}

#[test]
fn launch_proxy_owners() {
    let mut addrs = LaunchAddrs::new();
    addrs.record(LaunchContract::Positions, "pos".to_string());
    addrs.record(LaunchContract::Governance, "gov".to_string());
    let owners = addrs.proxy_owners();
    assert_eq!(owners.len(), 6);
    assert_eq!(owners[0].owner, "pos".to_string());
    assert_eq!(owners[0].liquidity_multiplier, Some(10 * ONE));
    assert_eq!(owners[4].owner, "gov".to_string());
    assert!(owners[4].non_token_contract_auth);
    assert!(!owners[1].non_token_contract_auth);
}
