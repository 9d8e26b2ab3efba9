use membrane_contracts::decimal256::Decimal256;
use membrane_contracts::liq_queue::contract::LiquidationQueue;
use membrane_contracts::liq_queue::types::{AssetInfo, Coin, LiqQueueError, PriceResponse256};
use membrane_contracts::math::Uint256;

const NOW: u64 = 1571797419;

fn u(x: u128) -> Uint256 {
    Uint256::from_u128(x)
}

fn v(x: Uint256) -> u128 {
    x.to_u128().unwrap()
}

fn native(denom: &str) -> AssetInfo {
    AssetInfo::NativeToken { denom: denom.to_string() }
}

fn cdt(amount: u128) -> Vec<Coin> {
    vec![Coin { denom: "cdt".to_string(), amount }]
}

fn one_price() -> PriceResponse256 {
    PriceResponse256 { price: Decimal256::one(), decimals: 6 }
}

fn new_contract(sender: &str, minimum_bid: u128, maximum_waiting_bids: u64) -> LiquidationQueue {
    LiquidationQueue::instantiate(
        None,
        sender.to_string(),
        "positions_contract".to_string(),
        "osmosis_proxy_contract".to_string(),
        60,
        minimum_bid,
        maximum_waiting_bids,
        native("cdt"),
    )
}

#[test]
fn proper_initialization() {
    let c = new_contract("addr0000", 0, 100);
    assert_eq!(c.config.owner, "addr0000");
    assert_eq!(c.config.positions_contract, "positions_contract");
    assert_eq!(c.config.waiting_period, 60);
    assert!(c.config.added_assets.is_empty());
    assert!(c.config.bid_asset.equal(&native("cdt")));
    assert_eq!(c.config.minimum_bid, 0);
    assert_eq!(c.config.maximum_waiting_bids, 100);
}

#[test]
fn contract_tests_update_config() {
    let mut c = new_contract("addr0000", 0, 100);
    let sender = "addr0000".to_string();

    // A new owner is only named for transfer.
    c.update_config(&sender, Some("owner0001".to_string()), None, None, None, None, None).unwrap();
    assert_eq!(c.config.owner, "addr0000");
    assert_eq!(c.config.waiting_period, 60);
    assert_eq!(c.config.minimum_bid, 0);
    assert_eq!(c.config.maximum_waiting_bids, 100);

    c.update_config(&sender, None, None, None, Some(100), Some(1), Some(10)).unwrap();
    assert_eq!(c.config.owner, "addr0000");
    assert_eq!(c.config.waiting_period, 100);
    assert_eq!(c.config.minimum_bid, 1);
    assert_eq!(c.config.maximum_waiting_bids, 10);

    let err = c
        .update_config(&"owner0000".to_string(), Some("addr0000".to_string()), None, None, Some(60), None, None)
        .unwrap_err();
    assert!(matches!(err, LiqQueueError::Unauthorized));

    // Accept the ownership transfer.
    c.update_config(&"owner0001".to_string(), None, None, None, None, None, None).unwrap();
    assert_eq!(c.config.owner, "owner0001");
    assert_eq!(c.config.positions_contract, "positions_contract");
    assert_eq!(c.config.waiting_period, 100);
    assert_eq!(c.config.minimum_bid, 1);
    assert_eq!(c.config.maximum_waiting_bids, 10);
}

#[test]
fn submit_bid() {
    let mut c = new_contract("owner0000", 2, 0);
    let owner = "owner0000".to_string();
    let user = "addr0000".to_string();
    c.add_queue(&owner, native("osmo"), 10, u(1_000_000)).unwrap();

    // Invalid bid_for
    let err = c.submit_bid(&user, &native("reverse_osmo"), 10, &cdt(1_000_000), NOW).unwrap_err();
    assert!(matches!(err, LiqQueueError::InvalidAsset));

    // No assets sent with the bid
    let err = c.submit_bid(&user, &native("osmo"), 10, &vec![], NOW).unwrap_err();
    assert!(matches!(err, LiqQueueError::NoAssetProvided));

    // Invalid bid asset sent
    let osmo = vec![Coin { denom: "osmo".to_string(), amount: 1_000_000 }];
    let err = c.submit_bid(&user, &native("osmo"), 10, &osmo, NOW).unwrap_err();
    assert!(matches!(err, LiqQueueError::InvalidBidAssetProvided));

    // Invalid bid asset sent alongside a valid one
    let both = vec![
        Coin { denom: "cdt".to_string(), amount: 1_000_000 },
        Coin { denom: "uluna".to_string(), amount: 1_000_000 },
    ];
    let err = c.submit_bid(&user, &native("osmo"), 10, &both, NOW).unwrap_err();
    assert!(matches!(err, LiqQueueError::InvalidBidAssetProvided));

    // Bid too small
    let err = c.submit_bid(&user, &native("osmo"), 1, &cdt(1), NOW).unwrap_err();
    assert!(matches!(err, LiqQueueError::BidTooSmall { minimum: 2 }));

    // Invalid premium
    let err = c.submit_bid(&user, &native("osmo"), 15, &cdt(1_000_000), NOW).unwrap_err();
    assert!(matches!(err, LiqQueueError::InvalidPremium));

    // A queue with no threshold sends bids straight to waiting, which is capped at 0 here.
    c.add_queue(&owner, native("not_osmo"), 10, u(0)).unwrap();
    let err = c.submit_bid(&user, &native("not_osmo"), 1, &cdt(1_000_000), NOW).unwrap_err();
    assert!(matches!(err, LiqQueueError::TooManyWaitingBids { max_waiting_bids: 0 }));

    // The whole bid is active: what would wait is below the minimum bid.
    c.submit_bid(&user, &native("osmo"), 10, &cdt(1_000_001), NOW).unwrap();
    let bid = c.query_bid(&native("osmo"), 1).unwrap();
    assert_eq!(bid.id, 1);
    assert_eq!(bid.user, "addr0000");
    assert_eq!(v(bid.amount), 1_000_001);
    assert_eq!(bid.liq_premium, 10);
    assert!(bid.product_snapshot.eq(&Decimal256::one()));
    assert!(bid.sum_snapshot.eq(&Decimal256::zero()));
    assert_eq!(v(bid.pending_liquidated_collateral), 0);
    assert_eq!(bid.wait_end, None);
    assert_eq!(bid.epoch_snapshot, 0);
    assert_eq!(bid.scale_snapshot, 0);

    c.add_queue(&owner, native("osmo_again"), 10, u(1_000_000)).unwrap();
    c.update_config(&owner, None, None, None, None, None, Some(1)).unwrap();

    // One active bid up to the threshold and one waiting bid with the rest.
    c.submit_bid(&user, &native("osmo_again"), 10, &cdt(1_000_002), NOW).unwrap();
    let bid = c.query_bid(&native("osmo_again"), 1).unwrap();
    assert_eq!(bid.id, 1);
    assert_eq!(bid.user, "addr0000");
    assert_eq!(v(bid.amount), 1_000_000);
    assert_eq!(bid.liq_premium, 10);
    assert!(bid.product_snapshot.eq(&Decimal256::one()));
    assert!(bid.sum_snapshot.eq(&Decimal256::zero()));
    assert_eq!(v(bid.pending_liquidated_collateral), 0);
    assert_eq!(bid.wait_end, None);

    let bid = c.query_bid(&native("osmo_again"), 2).unwrap();
    assert_eq!(bid.id, 2);
    assert_eq!(bid.user, "addr0000");
    assert_eq!(v(bid.amount), 2);
    assert_eq!(bid.liq_premium, 10);
    assert!(bid.product_snapshot.eq(&Decimal256::one()));
    assert!(bid.sum_snapshot.eq(&Decimal256::zero()));
    assert_eq!(v(bid.pending_liquidated_collateral), 0);
    assert_eq!(bid.wait_end, Some(1571797479));
    assert_eq!(bid.epoch_snapshot, 0);
    assert_eq!(bid.scale_snapshot, 0);
}

#[test]
fn retract_bid() {
    let mut c = new_contract("owner0000", 2, 100);
    let owner = "owner0000".to_string();
    let user = "addr0000".to_string();
    c.add_queue(&owner, native("osmo"), 10, u(1_000_000_000)).unwrap();
    c.submit_bid(&user, &native("osmo"), 10, &cdt(1_000_000), NOW).unwrap();

    let err = c.retract_bid(&user, 0, &native("osmo"), None).unwrap_err();
    assert!(matches!(err, LiqQueueError::BidNotFound));

    // What would be left is below the minimum bid.
    let err = c.retract_bid(&user, 1, &native("osmo"), Some(u(999_999))).unwrap_err();
    assert!(matches!(err, LiqQueueError::InvalidWithdrawal));

    let refund = c.retract_bid(&user, 1, &native("osmo"), None).unwrap();
    assert_eq!(refund, 1_000_000);

    let err = c.retract_bid(&user, 1, &native("osmo"), None).unwrap_err();
    assert!(matches!(err, LiqQueueError::BidNotFound));
}

#[test]
fn execute_bid() {
    let mut c = new_contract("owner0000", 0, 100);
    let owner = "owner0000".to_string();
    c.add_queue(&owner, native("osmo"), 10, u(1_000_000_000)).unwrap();
    c.submit_bid(&owner, &native("osmo"), 1, &cdt(500_000), NOW).unwrap();

    // Only the positions contract may liquidate.
    let err = c
        .execute_liquidation(&"asset0000".to_string(), u(500_000), &native("osmo"), &one_price(), &one_price(), NOW)
        .unwrap_err();
    assert!(matches!(err, LiqQueueError::Unauthorized));

    let positions = "positions_contract".to_string();
    let repaid = c
        .execute_liquidation(&positions, u(500_000), &native("osmo"), &one_price(), &one_price(), NOW)
        .unwrap();
    assert_eq!(repaid, 495_000);

    let err = c
        .execute_liquidation(&positions, u(500_000), &native("osmo"), &one_price(), &one_price(), NOW)
        .unwrap_err();
    assert!(matches!(err, LiqQueueError::InsufficientBids));

    let err = c
        .execute_liquidation(&positions, u(500_000_000_000), &native("osmo"), &one_price(), &one_price(), NOW)
        .unwrap_err();
    assert!(matches!(err, LiqQueueError::InsufficientBids));
}

#[test]
fn claim_liquidations() {
    let mut c = new_contract("owner0000", 0, 100);
    let owner = "owner0000".to_string();
    c.add_queue(&owner, native("osmo"), 10, u(1_000_000_000)).unwrap();
    c.submit_bid(&owner, &native("osmo"), 1, &cdt(1_000_000), NOW).unwrap();

    let positions = "positions_contract".to_string();
    c.execute_liquidation(&positions, u(5000), &native("osmo"), &one_price(), &one_price(), NOW).unwrap();

    let claims = c.query_user_claims(&owner).unwrap();
    assert_eq!(claims.len(), 1);
    assert!(claims[0].0.equal(&native("osmo")));
    assert_eq!(v(claims[0].1), 5000);

    let claimed = c.claim_liquidations(&owner, &native("osmo"), Some(vec![1]), NOW).unwrap();
    assert_eq!(v(claimed), 5000);
}

#[test]
fn update_queue() {
    let mut c = new_contract("addr0000", 0, 100);
    let admin = "addr0000".to_string();

    let err = c.add_queue(&"owner0000".to_string(), native("osmo"), 10, u(1_000_000_000)).unwrap_err();
    assert!(matches!(err, LiqQueueError::Unauthorized));

    c.add_queue(&admin, native("osmo"), 10, u(1_000_000_000)).unwrap();
    let q = c.query_queue(&native("osmo")).unwrap();
    assert_eq!(q.max_premium, 10);
    assert_eq!(v(q.bid_threshold), 1_000_000_000);

    c.edit_queue(&admin, &native("osmo"), Some(20), Some(u(5_000_000))).unwrap();
    let q = c.query_queue(&native("osmo")).unwrap();
    assert_eq!(q.max_premium, 20);
    assert_eq!(v(q.bid_threshold), 5_000_000);

    let slots = c.query_premium_slots(&native("osmo"), None, None).unwrap();
    assert_eq!(slots.len(), 21);
    assert!(slots[11].liq_premium.eq(&Decimal256::percent(11)));
    assert!(slots[20].liq_premium.eq(&Decimal256::percent(20)));
}
