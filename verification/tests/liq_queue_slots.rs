use membrane_contracts::decimal256::Decimal256;
use membrane_contracts::liq_queue::contract::LiquidationQueue;
use membrane_contracts::liq_queue::types::{AssetInfo, Coin, LiqQueueError, PriceResponse256};
use membrane_contracts::math::Uint256;

const NOW: u64 = 1571797419;

fn u(x: u128) -> Uint256 {
    Uint256::from_u128(x)
}

fn v(x: Uint256) -> u128 {
    x.to_u128().unwrap()
}

fn native(denom: &str) -> AssetInfo {
    AssetInfo::NativeToken { denom: denom.to_string() }
}

fn cdt(amount: u128) -> Vec<Coin> {
    vec![Coin { denom: "cdt".to_string(), amount }]
}

/// A price of `n` whole units of the debt token, for an asset of 6 decimals.
fn price(n: u128) -> PriceResponse256 {
    PriceResponse256 { price: Decimal256::from_atomics(u(n * 1_000_000_000_000_000_000)), decimals: 6 }
}

fn new_contract(waiting_period: u64, maximum_waiting_bids: u64) -> LiquidationQueue {
    LiquidationQueue::instantiate(
        None,
        "owner0000".to_string(),
        "positions_contract".to_string(),
        "osmosis_proxy_contract".to_string(),
        waiting_period,
        0,
        maximum_waiting_bids,
        native("cdt"),
    )
}

fn s(x: &str) -> String {
    x.to_string()
}

#[test]
fn one_bidder_distribution() {
    let mut c = new_contract(60, 100);
    let osmo = native("osmo");
    c.add_queue(&s("owner0000"), native("osmo"), 10, u(1_000_000_000)).unwrap();
    c.submit_bid(&s("owner0000"), &osmo, 1, &cdt(1_000_000), NOW).unwrap();
    c.execute_liquidation(&s("positions_contract"), u(5000), &osmo, &price(1), &price(1), NOW).unwrap();

    let claimed = c.claim_liquidations(&s("owner0000"), &osmo, None, NOW).unwrap();
    assert_eq!(v(claimed), 5000);

    // Only the leftover can be withdrawn: 4950 went to the liquidation.
    let refund = c.retract_bid(&s("owner0000"), 1, &osmo, None).unwrap();
    assert_eq!(refund, 995050);
}

#[test]
fn two_bidder_distribution() {
    let mut c = new_contract(1, 100);
    let osmo = native("osmo");
    c.add_queue(&s("owner0000"), native("osmo"), 10, u(0)).unwrap();
    c.submit_bid(&s("owner0000"), &osmo, 0, &cdt(100), NOW).unwrap();

    // Liquidate 4 at $10
    c.execute_liquidation(&s("positions_contract"), u(4), &osmo, &price(10), &price(1), NOW).unwrap();

    c.submit_bid(&s("user0000"), &osmo, 0, &cdt(60), NOW).unwrap();

    // Liquidate 6 at $20, once the second bid is unlocked
    c.execute_liquidation(&s("positions_contract"), u(6), &osmo, &price(20), &price(1), NOW + 70).unwrap();

    let claimed = c.claim_liquidations(&s("owner0000"), &osmo, None, NOW).unwrap();
    assert_eq!(v(claimed), 7);
    let err = c.retract_bid(&s("owner0000"), 1, &osmo, None).unwrap_err();
    assert!(matches!(err, LiqQueueError::BidNotFound));

    let claimed = c.claim_liquidations(&s("user0000"), &osmo, None, NOW).unwrap();
    assert_eq!(v(claimed), 3);
    let err = c.retract_bid(&s("user0000"), 2, &osmo, None).unwrap_err();
    assert!(matches!(err, LiqQueueError::BidNotFound));
}

#[test]
fn two_bidder_distribution_big_number() {
    let mut c = new_contract(60, 100);
    let osmo = native("osmo");
    c.add_queue(&s("owner0000"), native("osmo"), 10, u(0)).unwrap();
    c.submit_bid(&s("owner0000"), &osmo, 0, &cdt(10_000_000_000), NOW).unwrap();

    // Liquidate 400 at $10
    c.execute_liquidation(&s("positions_contract"), u(400_000_000), &osmo, &price(10), &price(1), NOW).unwrap();

    c.submit_bid(&s("user0000"), &osmo, 0, &cdt(6_000_000_000), NOW).unwrap();

    // Liquidate 600 at $20
    c.execute_liquidation(&s("positions_contract"), u(600_000_000), &osmo, &price(20), &price(1), NOW + 70).unwrap();

    let claimed = c.claim_liquidations(&s("owner0000"), &osmo, None, NOW).unwrap();
    assert_eq!(v(claimed), 700_000_000);
    let err = c.retract_bid(&s("owner0000"), 1, &osmo, None).unwrap_err();
    assert!(matches!(err, LiqQueueError::BidNotFound));

    let claimed = c.claim_liquidations(&s("user0000"), &osmo, None, NOW).unwrap();
    assert_eq!(v(claimed), 300_000_000);
    let err = c.retract_bid(&s("user0000"), 2, &osmo, None).unwrap_err();
    assert!(matches!(err, LiqQueueError::BidNotFound));
}

#[test]
fn one_user_two_slots() {
    let mut c = new_contract(60, 100);
    let osmo = native("osmo");
    c.add_queue(&s("owner0000"), native("osmo"), 10, u(5_000_000_000_000)).unwrap();
    c.submit_bid(&s("owner0000"), &osmo, 5, &cdt(100_000_000), NOW).unwrap();
    c.submit_bid(&s("owner0000"), &osmo, 10, &cdt(100_000_000), NOW).unwrap();

    // Liquidate 5 at $10
    c.execute_liquidation(&s("positions_contract"), u(5_000_000), &osmo, &price(10), &price(1), NOW + 70).unwrap();
    let claimed = c.claim_liquidations(&s("owner0000"), &osmo, None, NOW).unwrap();
    assert_eq!(v(claimed), 5_000_000);

    // Liquidate 10 at $10
    c.execute_liquidation(&s("positions_contract"), u(10_000_000), &osmo, &price(10), &price(1), NOW + 140).unwrap();
    let claimed = c.claim_liquidations(&s("owner0000"), &osmo, None, NOW).unwrap();
    // Rounding favours the system (the residue).
    assert_eq!(v(claimed), 9_999_999);

    let err = c.retract_bid(&s("owner0000"), 1, &osmo, None).unwrap_err();
    assert!(matches!(err, LiqQueueError::BidNotFound));

    let refund = c.retract_bid(&s("owner0000"), 2, &osmo, None).unwrap();
    assert_eq!(refund, 59_736_835);
}

#[test]
fn completely_empty_pool() {
    let mut c = new_contract(60, 10);
    let osmo = native("osmo");
    c.add_queue(&s("owner0000"), native("osmo"), 10, u(5_000_000_000_000)).unwrap();
    c.submit_bid(&s("owner0000"), &osmo, 0, &cdt(1_000_000_000), NOW).unwrap();

    // Liquidate 20 at $50: the slot is emptied.
    c.execute_liquidation(&s("positions_contract"), u(20_000_000), &osmo, &price(50), &price(1), NOW).unwrap();

    c.submit_bid(&s("user0000"), &osmo, 0, &cdt(2_000_000_000), NOW).unwrap();

    let bid = c.query_bid(&osmo, 2).unwrap();
    assert!(!bid.product_snapshot.is_zero());
    assert_eq!(bid.epoch_snapshot, 1);

    let slot = c.query_premium_slot(&osmo, 0).unwrap();
    assert!(slot.sum_snapshot.eq(&Decimal256::zero()));
    assert!(slot.product_snapshot.eq(&Decimal256::one()));
    assert!(slot.liq_premium.eq(&Decimal256::zero()));
    assert_eq!(v(slot.total_bid_amount), 2_000_000_000);
    assert_eq!(slot.current_epoch, 1);
    assert_eq!(slot.current_scale, 0);

    // Liquidate 20 at $50
    c.execute_liquidation(&s("positions_contract"), u(20_000_000), &osmo, &price(50), &price(1), NOW).unwrap();

    let claimed = c.claim_liquidations(&s("owner0000"), &osmo, None, NOW).unwrap();
    assert_eq!(v(claimed), 20_000_000);
    let err = c.retract_bid(&s("owner0000"), 1, &osmo, None).unwrap_err();
    assert!(matches!(err, LiqQueueError::BidNotFound));

    let claimed = c.claim_liquidations(&s("user0000"), &osmo, None, NOW).unwrap();
    assert_eq!(v(claimed), 20_000_000);
}

#[test]
fn product_truncated_to_zero() {
    let mut c = new_contract(60, 2);
    let pool = native("gamm/pool/5");
    c.add_queue(&s("owner0000"), native("gamm/pool/5"), 30, u(10_000_000_000)).unwrap();
    for _ in 0..8 {
        c.submit_bid(&s("owner0000"), &pool, 0, &cdt(1_000_000_000), NOW).unwrap();
        // Leaves 5 of the bid token as residue each time.
        c.execute_liquidation(&s("positions_contract"), u(999_999_995), &pool, &price(1), &price(1), NOW).unwrap();
    }

    let claimed = c.claim_liquidations(&s("owner0000"), &pool, None, NOW).unwrap();
    // 999999995 * 8 = 7,999,999,960, less 1 from rounding and the product's resolution.
    assert_eq!(v(claimed), 7_999_999_959);

    let slot = c.query_premium_slot(&pool, 0).unwrap();
    assert_eq!(v(slot.total_bid_amount), 40);

    // Only the last bid is active.
    let refund = c.retract_bid(&s("owner0000"), 8, &pool, None).unwrap();
    assert_eq!(refund, 39);
}

#[test]
fn two_bidder_distribution_multiple_common_slots() {
    let mut c = new_contract(1, 100);
    let osmo = native("osmo");
    c.add_queue(&s("owner0000"), native("osmo"), 10, u(5_000_000_000_000)).unwrap();
    c.submit_bid(&s("owner0000"), &osmo, 5, &cdt(100_000_000), NOW).unwrap();
    c.submit_bid(&s("user0000"), &osmo, 5, &cdt(100_000_000), NOW).unwrap();
    c.submit_bid(&s("owner0000"), &osmo, 10, &cdt(200_000_000), NOW).unwrap();
    c.submit_bid(&s("user0000"), &osmo, 10, &cdt(200_000_000), NOW).unwrap();

    // Liquidate 32 at $10
    c.execute_liquidation(&s("positions_contract"), u(32_000_000), &osmo, &price(10), &price(1), NOW + 70).unwrap();

    let claimed = c.claim_liquidations(&s("owner0000"), &osmo, None, NOW).unwrap();
    assert_eq!(v(claimed), 15_999_999);
    let claimed = c.claim_liquidations(&s("user0000"), &osmo, None, NOW).unwrap();
    assert_eq!(v(claimed), 16_000_001);

    let refund = c.retract_bid(&s("user0000"), 4, &osmo, None).unwrap();
    assert_eq!(refund, 150_736_840);
    let refund = c.retract_bid(&s("owner0000"), 3, &osmo, None).unwrap();
    assert_eq!(refund, 150_736_839);
}

#[test]
fn scalable_reward_distribution_after_multiple_liquidations() {
    let mut c = new_contract(60, 100);
    let osmo = native("osmo");
    c.add_queue(&s("owner0000"), native("osmo"), 10, u(5_000_000_000_000)).unwrap();
    c.submit_bid(&s("owner0000"), &osmo, 0, &cdt(50), NOW).unwrap();
    c.submit_bid(&s("user0000"), &osmo, 0, &cdt(100), NOW).unwrap();
    c.submit_bid(&s("user0001"), &osmo, 0, &cdt(100), NOW).unwrap();

    // Liquidate 100 at $1
    c.execute_liquidation(&s("positions_contract"), u(100), &osmo, &price(1), &price(1), NOW + 60).unwrap();

    c.submit_bid(&s("user0000"), &osmo, 0, &cdt(250), NOW).unwrap();
    c.submit_bid(&s("user0001"), &osmo, 0, &cdt(250), NOW).unwrap();

    // Liquidate 50 at $1
    c.execute_liquidation(&s("positions_contract"), u(50), &osmo, &price(1), &price(1), NOW + 120).unwrap();

    // 20 from the first liquidation, 2 from the second.
    let claimed = c.claim_liquidations(&s("owner0000"), &osmo, None, NOW).unwrap();
    assert_eq!(v(claimed), 22);
    // Rounding grants 27 instead of 28.
    let refund = c.retract_bid(&s("owner0000"), 1, &osmo, None).unwrap();
    assert_eq!(refund, 27);
}

#[test]
fn not_enough_bid_for_collateral() {
    let mut c = new_contract(1, 100);
    let osmo = native("osmo");
    c.add_queue(&s("owner0000"), native("osmo"), 10, u(0)).unwrap();
    c.submit_bid(&s("owner0000"), &osmo, 6, &cdt(100), NOW).unwrap();
    c.submit_bid(&s("user0000"), &osmo, 6, &cdt(100), NOW).unwrap();

    // 100 at $3 is worth 300; the bids total 200.
    let err = c
        .execute_liquidation(&s("positions_contract"), u(100), &osmo, &price(3), &price(1), NOW + 70)
        .unwrap_err();
    assert!(matches!(err, LiqQueueError::InsufficientBids));
}
