use membrane_contracts::liq_queue::types::AssetInfo;
use membrane_contracts::liquidity_check::{LcError, LiquidityCheck, LiquidityInfo, PoolCoin, PoolType};

const OWNER: &str = "owner";
const POSITIONS: &str = "positions";

fn native(denom: &str) -> AssetInfo {
    AssetInfo::NativeToken { denom: denom.to_string() }
}

fn check() -> LiquidityCheck {
    LiquidityCheck::instantiate(None, OWNER.to_string(), "proxy".to_string(), POSITIONS.to_string())
}

fn info(denom: &str, pools: Vec<PoolType>) -> LiquidityInfo {
    LiquidityInfo { asset: native(denom), pool_infos: pools }
}

fn coins(list: &[(&str, &str)]) -> Vec<PoolCoin> {
    list.iter().map(|(d, a)| PoolCoin { denom: d.to_string(), amount: a.to_string() }).collect()
}

#[test]
fn add_edit_remove_asset() {
    let mut lc = check();
    lc.add_asset(&OWNER.to_string(), info("uosmo", vec![PoolType::Balancer { pool_id: 1 }])).unwrap();
    let err = lc.add_asset(&POSITIONS.to_string(), info("uosmo", vec![])).unwrap_err();
    assert!(matches!(err, LcError::DuplicateAsset));
    let err = lc.add_asset(&"stranger".to_string(), info("uatom", vec![])).unwrap_err();
    assert!(matches!(err, LcError::Unauthorized));

    lc.edit_asset(&POSITIONS.to_string(), info("uosmo", vec![PoolType::StableSwap { pool_id: 2 }])).unwrap();
    let got = lc.get_assets(Some(native("uosmo")), None, None).unwrap();
    assert_eq!(got.len(), 1);
    assert_eq!(got[0].pool_infos, vec![PoolType::Balancer { pool_id: 1 }, PoolType::StableSwap { pool_id: 2 }]);

    // Editing an unlisted asset lists it
    lc.edit_asset(&OWNER.to_string(), info("uatom", vec![PoolType::Balancer { pool_id: 3 }])).unwrap();
    let all = lc.get_assets(None, None, None).unwrap();
    assert_eq!(all.len(), 2);
    assert!(matches!(&all[0].asset, AssetInfo::NativeToken { denom } if denom == "uatom"));
    let after = lc.get_assets(None, Some(5), Some(native("uatom"))).unwrap();
    assert_eq!(after.len(), 1);
    assert!(matches!(&after[0].asset, AssetInfo::NativeToken { denom } if denom == "uosmo"));

    let err = lc.remove_asset(&POSITIONS.to_string(), &native("uosmo")).unwrap_err();
    assert!(matches!(err, LcError::Unauthorized));
    lc.remove_asset(&OWNER.to_string(), &native("uosmo")).unwrap();
    let err = lc.get_assets(Some(native("uosmo")), None, None).unwrap_err();
    assert!(matches!(err, LcError::AssetNotFound));
}

#[test]
fn liquidity_weights_stableswap_pools() {
    let mut lc = check();
    lc.add_asset(&OWNER.to_string(), info("cdt", vec![PoolType::Balancer { pool_id: 1 }, PoolType::StableSwap { pool_id: 2 }]))
        .unwrap();
    let queries = lc.pool_queries(&native("cdt")).unwrap();
    assert_eq!(queries, vec![(1, 1_000_000_000_000_000_000), (2, 10_000_000_000_000_000_000)]);
    let states = vec![coins(&[("uosmo", "5"), ("cdt", "100")]), coins(&[("cdt", "7"), ("usdc", "7")])];
    assert_eq!(lc.get_liquidity(&native("cdt"), &states).unwrap(), 100 + 70);

    let missing = vec![coins(&[("uosmo", "5")]), coins(&[("cdt", "7")])];
    let err = lc.get_liquidity(&native("cdt"), &missing).unwrap_err();
    assert!(matches!(err, LcError::NotInPool { denom } if denom == "cdt"));
    let garbled = vec![coins(&[("cdt", "x")]), coins(&[("cdt", "7")])];
    let err = lc.get_liquidity(&native("cdt"), &garbled).unwrap_err();
    assert!(matches!(err, LcError::InvalidAmount));
    let err = lc.get_liquidity(&native("cdt"), &vec![]).unwrap_err();
    assert!(matches!(err, LcError::QueryFailed));
    let err = lc.get_liquidity(&native("uosmo"), &states).unwrap_err();
    assert!(matches!(err, LcError::AssetNotFound));
}

#[test]
fn liquidity_check_update_config() {
    let mut lc = check();
    let err = lc.update_config(&POSITIONS.to_string(), None, None, None, Some(1)).unwrap_err();
    assert!(matches!(err, LcError::Unauthorized));
    lc.update_config(&OWNER.to_string(), Some("new_owner".to_string()), None, None, Some(2_000_000_000_000_000_000))
        .unwrap();
    assert_eq!(lc.config.owner, "new_owner".to_string());
    assert_eq!(lc.config.stableswap_multiplier, 2_000_000_000_000_000_000);
    assert_eq!(lc.config.positions_contract, POSITIONS.to_string());
}
