use membrane_contracts::decimal256::Decimal256;
use membrane_contracts::liq_queue::contract::LiquidationQueue;
use membrane_contracts::liq_queue::types::{AssetInfo, Coin, PriceResponse256};
use membrane_contracts::math::Uint256;

const NOW: u64 = 1571797419;
const ONE: u128 = 1_000_000_000_000_000_000;

fn u(x: u128) -> Uint256 {
    Uint256::from_u128(x)
}

fn v(x: Uint256) -> u128 {
    x.to_u128().unwrap()
}

fn native(denom: &str) -> AssetInfo {
    AssetInfo::NativeToken { denom: denom.to_string() }
}

fn cdt(amount: u128) -> Vec<Coin> {
    vec![Coin { denom: "cdt".to_string(), amount }]
}

fn one_price() -> PriceResponse256 {
    PriceResponse256 { price: Decimal256::one(), decimals: 6 }
}

fn s(x: &str) -> String {
    x.to_string()
}

fn setup(threshold: u128) -> LiquidationQueue {
    let mut c = LiquidationQueue::instantiate(
        None,
        s("owner0000"),
        s("positions_contract"),
        s("osmosis_proxy_contract"),
        60,
        0,
        100,
        native("cdt"),
    );
    c.add_queue(&s("owner0000"), native("osmo"), 10, u(threshold)).unwrap();
    c
}

/// Checks what the queue can absorb, then liquidates `liquidated` of it.
fn check(c: &mut LiquidationQueue, amount: u128, leftover: u128, repaid: u128, liquidated: u128) {
    let resp = c.query_liquidatible(&native("osmo"), ONE, u(amount), &native("cdt"), ONE).unwrap();
    assert_eq!(v(resp.leftover_collateral), leftover);
    assert_eq!(v(resp.total_debt_repaid), repaid);
    c.execute_liquidation(&s("positions_contract"), u(liquidated), &native("osmo"), &one_price(), &one_price(), NOW)
        .unwrap();
}

#[test]
fn partial_one_collateral_one_slot() {
    let mut c = setup(1_000_000_000);
    c.submit_bid(&s("owner0000"), &native("osmo"), 0, &cdt(1000), NOW).unwrap();
    check(&mut c, 999, 0, 999, 999);
}

#[test]
fn partial_one_collateral_one_slot_w_fees() {
    let mut c = setup(1_000_000_000);
    c.submit_bid(&s("owner0000"), &native("osmo"), 10, &cdt(1000), NOW).unwrap();
    check(&mut c, 1110, 0, 999, 1110);
}

#[test]
fn one_collateral_one_slot() {
    let mut c = setup(1_000_000_000);
    c.submit_bid(&s("owner0000"), &native("osmo"), 0, &cdt(1000), NOW).unwrap();
    check(&mut c, 1000, 0, 1000, 1000);
}

#[test]
fn one_collateral_one_slot_w_fees() {
    let mut c = setup(1_000_000_000);
    c.submit_bid(&s("owner0000"), &native("osmo"), 10, &cdt(1000), NOW).unwrap();
    let resp = c.query_liquidatible(&native("osmo"), ONE, u(1112), &native("cdt"), ONE).unwrap();
    assert_eq!(v(resp.total_debt_repaid), 1000);
    c.execute_liquidation(&s("positions_contract"), u(1112), &native("osmo"), &one_price(), &one_price(), NOW)
        .unwrap();
}

#[test]
fn two_slot_w_fees() {
    let mut c = setup(1_000_000_000);
    c.submit_bid(&s("owner0000"), &native("osmo"), 0, &cdt(1000), NOW).unwrap();
    c.submit_bid(&s("owner0000"), &native("osmo"), 10, &cdt(1000), NOW).unwrap();
    check(&mut c, 2000, 0, 1900, 2000);
}

#[test]
fn partial_two_slot_w_fees() {
    let mut c = setup(1_000_000_000);
    c.submit_bid(&s("owner0000"), &native("osmo"), 0, &cdt(1000), NOW).unwrap();
    c.submit_bid(&s("owner0000"), &native("osmo"), 10, &cdt(1000), NOW).unwrap();
    check(&mut c, 2222, 111, 2000, 2111);
}

#[test]
fn partial_two_slot_w_fees_bignums() {
    let mut c = setup(100_000_000_000_000);
    c.submit_bid(&s("owner0000"), &native("osmo"), 0, &cdt(1_000_000_000), NOW).unwrap();
    c.submit_bid(&s("owner0000"), &native("osmo"), 10, &cdt(1_000_000_000), NOW).unwrap();
    check(&mut c, 2_222_222_222, 111_111_111, 2_000_000_000, 2_111_111_111);
}

#[test]
fn query_liquidatible() {
    let mut c = setup(1_000_000_000);
    c.submit_bid(&s("owner0000"), &native("osmo"), 1, &cdt(1_000_000), NOW).unwrap();
    let resp = c.query_liquidatible(&native("osmo"), ONE, u(10_000), &native("cdt"), ONE).unwrap();
    assert_eq!(v(resp.leftover_collateral), 0);
    assert_eq!(v(resp.total_debt_repaid), 9900);
}

#[test]
fn query_bid() {
    let mut c = setup(1_000_000_000);
    c.submit_bid(&s("owner0000"), &native("osmo"), 1, &cdt(1_000_000), NOW).unwrap();

    let bid = c.query_bid(&native("osmo"), 1).unwrap();
    assert_eq!(bid.user, "owner0000");
    assert_eq!(bid.id, 1);
    assert_eq!(v(bid.amount), 1_000_000);
    assert_eq!(bid.liq_premium, 1);
    assert!(bid.product_snapshot.eq(&Decimal256::one()));
    assert!(bid.sum_snapshot.eq(&Decimal256::zero()));
    assert_eq!(v(bid.pending_liquidated_collateral), 0);
    assert_eq!(bid.wait_end, None);
    assert_eq!(bid.epoch_snapshot, 0);
    assert_eq!(bid.scale_snapshot, 0);

    c.submit_bid(&s("owner0000"), &native("osmo"), 10, &cdt(1_000_000), NOW).unwrap();
    let bids = c.query_bids_by_user(&native("osmo"), &s("owner0000"), None, None).unwrap();
    assert_eq!(bids.len(), 2);
    let expected: [(u128, u8); 2] = [(1, 1), (2, 10)];
    for (bid, (id, premium)) in bids.iter().zip(expected.iter()) {
        assert_eq!(bid.user, "owner0000");
        assert_eq!(bid.id, *id);
        assert_eq!(v(bid.amount), 1_000_000);
        assert_eq!(bid.liq_premium, *premium);
        assert!(bid.product_snapshot.eq(&Decimal256::one()));
        assert!(bid.sum_snapshot.eq(&Decimal256::zero()));
        assert_eq!(v(bid.pending_liquidated_collateral), 0);
        assert_eq!(bid.wait_end, None);
        assert_eq!(bid.epoch_snapshot, 0);
        assert_eq!(bid.scale_snapshot, 0);
    }
}

#[test]
fn query_slots_queues() {
    let mut c = setup(1_000_000_000);
    c.add_queue(&s("owner0000"), native("atom"), 10, u(1_000_000_000)).unwrap();

    let queues = c.query_queues(None, None).unwrap();
    assert_eq!(queues.len(), 2);
    for q in queues.iter() {
        assert_eq!(q.bid_asset.amount, 0);
        assert!(q.bid_asset.info.equal(&native("cdt")));
        assert_eq!(q.max_premium, 10);
        assert_eq!(q.current_bid_id, 1);
        assert_eq!(v(q.bid_threshold), 1_000_000_000);
    }

    // The slots above 1%, at most two of them.
    let slots = c.query_premium_slots(&native("atom"), Some(1), Some(2)).unwrap();
    assert_eq!(slots.len(), 2);
    for (slot, p) in slots.iter().zip([2u64, 3u64].iter()) {
        assert!(slot.bids.is_empty());
        assert!(slot.waiting_bids.is_empty());
        assert!(slot.liq_premium.eq(&Decimal256::percent(*p)));
        assert!(slot.sum_snapshot.eq(&Decimal256::zero()));
        assert!(slot.product_snapshot.eq(&Decimal256::one()));
        assert_eq!(v(slot.total_bid_amount), 0);
        assert_eq!(slot.current_epoch, 0);
        assert_eq!(slot.current_scale, 0);
        assert!(slot.residue_collateral.eq(&Decimal256::zero()));
        assert!(slot.residue_bid.eq(&Decimal256::zero()));
    }

    c.submit_bid(&s("owner0000"), &native("osmo"), 1, &cdt(1_000_000), NOW).unwrap();
    let slot = c.query_premium_slot(&native("osmo"), 1).unwrap();
    assert_eq!(slot.bids.len(), 1);
    let bid = &slot.bids[0];
    assert_eq!(bid.user, "owner0000");
    assert_eq!(bid.id, 1);
    assert_eq!(v(bid.amount), 1_000_000);
    assert_eq!(bid.liq_premium, 1);
    assert!(bid.product_snapshot.eq(&Decimal256::one()));
    assert!(bid.sum_snapshot.eq(&Decimal256::zero()));
    assert_eq!(v(bid.pending_liquidated_collateral), 0);
    assert_eq!(bid.wait_end, None);
    assert!(slot.waiting_bids.is_empty());
    assert!(slot.liq_premium.eq(&Decimal256::percent(1)));
    assert!(slot.sum_snapshot.eq(&Decimal256::zero()));
    assert!(slot.product_snapshot.eq(&Decimal256::one()));
    assert_eq!(v(slot.total_bid_amount), 1_000_000);
    assert_eq!(slot.current_epoch, 0);
    assert_eq!(slot.current_scale, 0);

    let q = c.query_queue(&native("osmo")).unwrap();
    assert_eq!(q.bid_asset.amount, 1_000_000);
    assert!(q.bid_asset.info.equal(&native("cdt")));
    assert_eq!(q.max_premium, 10);
    assert_eq!(q.current_bid_id, 2);
    assert_eq!(v(q.bid_threshold), 1_000_000_000);

    // Listing from a queue starts at that queue.
    let queues = c.query_queues(Some(native("osmo")), None).unwrap();
    assert_eq!(queues[0].bid_asset.amount, 1_000_000);
    assert_eq!(queues[0].current_bid_id, 2);
    assert_eq!(queues.len(), 2);
}
