//! Submitting bids to a queue, and activating waiting bids.
use vstd::prelude::*;
use crate::math::{Uint256, fraction, u256_limit, u128_limit};
use crate::decimal256::{Decimal256, dec_of, lemma_dec_of};
use crate::liq_queue::types::{AssetInfo, Bid, Coin, PremiumSlot, SlotView, Queue, QueueView, LiqQueueError};
use crate::liq_queue::store::{find_slot, store_slot, slot_index, replace_slot, lemma_slot_index};

verus! {

/// The bid amount sent: exactly one coin, of the native bid asset, of at
/// least the minimum bid.
pub open spec fn funds_check(bid_asset: AssetInfo, funds: Seq<Coin>, minimum_bid: u128) -> Result<u128, LiqQueueError> {
    if funds.len() == 0 {
        Err(LiqQueueError::NoAssetProvided)
    } else {
        match bid_asset {
            AssetInfo::Token { .. } => Err(LiqQueueError::NonNativeBidAsset),
            AssetInfo::NativeToken { denom } => if funds[0].denom@ == denom@ && funds.len() == 1 {
                if funds[0].amount < minimum_bid {
                    Err(LiqQueueError::BidTooSmall { minimum: minimum_bid })
                } else {
                    Ok(funds[0].amount)
                }
            } else {
                Err(LiqQueueError::InvalidBidAssetProvided)
            },
        }
    }
}

/// The bid amount sent (see `funds_check`).
pub fn assert_bid_asset_from_sent_funds(bid_asset: &AssetInfo, funds: &Vec<Coin>, minimum_bid: u128) -> (r: Result<u128, LiqQueueError>)
    ensures
        r == funds_check(*bid_asset, funds@, minimum_bid),
{
    if funds.len() == 0 {
        return Err(LiqQueueError::NoAssetProvided);
    }
    match bid_asset {
        AssetInfo::NativeToken { denom } => {
            if funds[0].denom == *denom && funds.len() == 1 {
                if funds[0].amount < minimum_bid {
                    Err(LiqQueueError::BidTooSmall { minimum: minimum_bid })
                } else {
                    Ok(funds[0].amount)
                }
            } else {
                Err(LiqQueueError::InvalidBidAssetProvided)
            }
        },
        AssetInfo::Token { .. } => Err(LiqQueueError::NonNativeBidAsset),
    }
}

/// The premium of a bid must not exceed the queue's maximum premium (read
/// as a `u8`, that is modulo 256).
pub open spec fn premium_allowed(max_premium: u128, premium: u8) -> bool {
    premium as nat <= max_premium as nat % 256
}

pub fn validate_bid_input(max_premium: u128, premium: u8) -> (r: Result<(), LiqQueueError>)
    ensures
        r is Ok <==> premium_allowed(max_premium, premium),
        r matches Err(e) ==> e is InvalidPremium,
{
    let m: u8 = (max_premium % 256) as u8;
    if premium <= m {
        Ok(())
    } else {
        Err(LiqQueueError::InvalidPremium)
    }
}

/// How a submitted amount `a` is split at a slot holding `total` active
/// bids: the part activated at once, the part sent to wait, and how many
/// bid ids are used. Below the threshold the bid is active, except that
/// what would carry the slot past `threshold + minimum` waits beyond the
/// threshold; above the threshold it all waits.
pub open spec fn split_bid(total: nat, a: nat, threshold: nat, minimum: nat) -> (nat, nat, nat) {
    if total <= threshold {
        if total + a < threshold + minimum {
            (a, 0, 1)
        } else {
            let waiting = (total + a - threshold) as nat;
            ((a - waiting) as nat, waiting, 2)
        }
    } else {
        (0, a, 1)
    }
}

/// A new active bid, with the slot's snapshots.
pub open spec fn active_bid(b: Bid, s: SlotView, user: Seq<char>, id: u128, amount: nat, premium: u8) -> bool {
    &&& b.user@ == user
    &&& b.id == id
    &&& b.amount.value() == amount
    &&& b.liq_premium == premium
    &&& b.product_snapshot.v() == s.product_snapshot
    &&& b.sum_snapshot.v() == s.sum_snapshot
    &&& b.pending_liquidated_collateral.value() == 0
    &&& b.wait_end is None
    &&& b.epoch_snapshot == s.current_epoch
    &&& b.scale_snapshot == s.current_scale
}

/// A new waiting bid, with fresh snapshots and its wait end.
pub open spec fn waiting_bid(b: Bid, user: Seq<char>, id: u128, amount: nat, premium: u8, wait_end: u64) -> bool {
    &&& b.user@ == user
    &&& b.id == id
    &&& b.amount.value() == amount
    &&& b.liq_premium == premium
    &&& b.product_snapshot.v() == fraction()
    &&& b.sum_snapshot.v() == 0
    &&& b.pending_liquidated_collateral.value() == 0
    &&& b.wait_end == Some(wait_end)
    &&& b.epoch_snapshot == 0
    &&& b.scale_snapshot == 0
}

/// The slot after a bid of `a` is placed in it (see `split_bid`): the active
/// part is appended to the active bids with id `id`, the waiting part to
/// the waiting bids with the next unused id.
pub open spec fn bid_placed(
    s: SlotView,
    s2: SlotView,
    user: Seq<char>,
    a: nat,
    threshold: nat,
    minimum: nat,
    id: u128,
    premium: u8,
    wait_end: u64,
) -> bool {
    let (active, waiting, ids) = split_bid(s.total_bid_amount, a, threshold, minimum);
    let waiting_id = if ids == 2 { (id + 1) as u128 } else { id };
    &&& s2.total_bid_amount == s.total_bid_amount + active
    &&& s2.liq_premium == s.liq_premium
    &&& s2.sum_snapshot == s.sum_snapshot
    &&& s2.product_snapshot == s.product_snapshot
    &&& s2.last_total == s.last_total
    &&& s2.current_epoch == s.current_epoch
    &&& s2.current_scale == s.current_scale
    &&& s2.residue_collateral == s.residue_collateral
    &&& s2.residue_bid == s.residue_bid
    &&& (if s.total_bid_amount <= threshold {
        &&& s2.bids.len() == s.bids.len() + 1
        &&& s2.bids.drop_last() == s.bids
        &&& active_bid(s2.bids.last(), s, user, id, active, premium)
    } else {
        s2.bids == s.bids
    })
    &&& (if waiting != 0 {
        &&& s2.waiting_bids.len() == s.waiting_bids.len() + 1
        &&& s2.waiting_bids.drop_last() == s.waiting_bids
        &&& waiting_bid(s2.waiting_bids.last(), user, waiting_id, waiting, premium, wait_end)
    } else {
        s2.waiting_bids == s.waiting_bids
    })
}

/// Whether the arithmetic of placing a bid fits its integer types (and a
/// wait end could be formed where part of the bid waits).
pub open spec fn placement_fits(q: QueueView, s: SlotView, a: nat, minimum: nat, wait_end: Option<u64>) -> bool {
    let (active, waiting, ids) = split_bid(s.total_bid_amount, a, q.bid_threshold, minimum);
    &&& q.current_bid_id + ids < u128_limit()
    &&& q.bid_asset_amount + active < u128_limit()
    &&& (s.total_bid_amount <= q.bid_threshold ==> {
        &&& s.total_bid_amount + a < u256_limit()
        &&& q.bid_threshold + minimum < u256_limit()
    })
    &&& (waiting != 0 ==> wait_end is Some)
}

/// The queue as a value, or the error.
pub open spec fn queue_result(r: Result<Queue, LiqQueueError>) -> Result<QueueView, LiqQueueError> {
    match r {
        Ok(q) => Ok(q@),
        Err(e) => Err(e),
    }
}

/// The outcome of putting a bid of `amount` from `user` at `premium` into
/// queue `q` (see `split_bid` and `bid_placed`): the premium's slot is
/// replaced and moves last, ids are used, and the activated part is added
/// to the queue's bid asset amount.
pub open spec fn placement_outcome(
    q: QueueView,
    user: Seq<char>,
    premium: u8,
    amount: nat,
    minimum: nat,
    wait_end: Option<u64>,
    maximum_waiting_bids: u64,
    out: Result<QueueView, LiqQueueError>,
) -> bool {
    match slot_index(q.slots, premium as nat) {
        None => out == Err::<QueueView, LiqQueueError>(LiqQueueError::InvalidPremium),
        Some(i) => {
            let s = q.slots[i];
            let (active, waiting, ids) = split_bid(s.total_bid_amount, amount, q.bid_threshold, minimum);
            if !placement_fits(q, s, amount, minimum, wait_end) {
                out == Err::<QueueView, LiqQueueError>(LiqQueueError::MathError)
            } else if waiting != 0 && s.waiting_bids.len() + 1 > maximum_waiting_bids {
                out == Err::<QueueView, LiqQueueError>(LiqQueueError::TooManyWaitingBids { max_waiting_bids: maximum_waiting_bids })
            } else {
                out matches Ok(q2) && {
                    let s2 = q2.slots.last();
                    &&& q2.slots == replace_slot(q.slots, s2)
                    &&& bid_placed(s, s2, user, amount, q.bid_threshold, minimum, q.current_bid_id, premium,
                        wait_end.unwrap_or(0))
                    &&& q2.current_bid_id == q.current_bid_id + ids
                    &&& q2.bid_asset_amount == q.bid_asset_amount + active
                    &&& q2.bid_asset_info == q.bid_asset_info
                    &&& q2.max_premium == q.max_premium
                    &&& q2.bid_threshold == q.bid_threshold
                }
            }
        },
    }
}

/// Put a bid of `amount` from `user` at `premium` into the queue (see
/// `placement_outcome`). `wait_end` is the end of the wait for the part
/// that waits, `None` where it overflowed.
pub fn place_bid(
    queue: &Queue,
    user: &String,
    premium: u8,
    amount: u128,
    minimum_bid: u128,
    wait_end: Option<u64>,
    maximum_waiting_bids: u64,
) -> (r: Result<Queue, LiqQueueError>)
    ensures
        placement_outcome(queue@, user@, premium, amount as nat, minimum_bid as nat, wait_end, maximum_waiting_bids,
            queue_result(r)),
{
    let ghost views = queue@.slots;
    let idx = match find_slot(&queue.slots, premium) {
        Some(i) => i,
        None => return Err(LiqQueueError::InvalidPremium),
    };
    proof {
        lemma_slot_index(views, premium as nat);
        assert(views[idx as int] == queue.slots@[idx as int]@);
    }
    let slot = &queue.slots[idx];
    let a = Uint256::from_u128(amount);
    let min = Uint256::from_u128(minimum_bid);
    let ghost (active_s, waiting_s, ids_s) = split_bid(slot@.total_bid_amount, amount as nat, queue@.bid_threshold, minimum_bid as nat);

    let (active, waiting, ids): (Uint256, Uint256, u128) = if slot.total_bid_amount.le(&queue.bid_threshold) {
        let slot_plus = match slot.total_bid_amount.checked_add(a) {
            Some(v) => v,
            None => return Err(LiqQueueError::MathError),
        };
        let threshold_plus = match queue.bid_threshold.checked_add(min) {
            Some(v) => v,
            None => return Err(LiqQueueError::MathError),
        };
        if slot_plus.lt(&threshold_plus) {
            (a, Uint256::zero(), 1)
        } else {
            let w = match slot_plus.checked_sub(queue.bid_threshold) {
                Some(v) => v,
                None => return Err(LiqQueueError::MathError),
            };
            let act = match a.checked_sub(w) {
                Some(v) => v,
                None => return Err(LiqQueueError::MathError),
            };
            (act, w, 2)
        }
    } else {
        (Uint256::zero(), a, 1)
    };
    assert(active.value() == active_s && waiting.value() == waiting_s && ids as nat == ids_s);
    if queue.current_bid_id > u128::MAX - ids {
        return Err(LiqQueueError::MathError);
    }
    let active_u128 = match active.to_u128() {
        Some(v) => v,
        None => return Err(LiqQueueError::MathError),
    };
    if queue.bid_asset.amount > u128::MAX - active_u128 {
        return Err(LiqQueueError::MathError);
    }
    proof {
        slot.total_bid_amount.lemma_bound();
    }
    let new_total = match slot.total_bid_amount.checked_add(active) {
        Some(v) => v,
        None => return Err(LiqQueueError::MathError),
    };
    let waiting_nonzero = !waiting.is_zero();
    let end = match wait_end {
        Some(e) => e,
        None => {
            if waiting_nonzero {
                return Err(LiqQueueError::MathError);
            }
            0
        },
    };
    if waiting_nonzero && slot.waiting_bids.len() as u64 >= maximum_waiting_bids {
        return Err(LiqQueueError::TooManyWaitingBids { max_waiting_bids: maximum_waiting_bids });
    }

    let id0 = queue.current_bid_id;
    let mut bids = crate::liq_queue::types::copy_bids(&slot.bids);
    if slot.total_bid_amount.le(&queue.bid_threshold) {
        bids.push(Bid {
            user: user.clone(),
            id: id0,
            amount: active,
            liq_premium: premium,
            product_snapshot: slot.product_snapshot,
            sum_snapshot: slot.sum_snapshot,
            pending_liquidated_collateral: Uint256::zero(),
            wait_end: None,
            epoch_snapshot: slot.current_epoch,
            scale_snapshot: slot.current_scale,
        });
        assert(bids@.drop_last() =~= slot.bids@);
    }
    let mut waiting_bids = crate::liq_queue::types::copy_bids(&slot.waiting_bids);
    if waiting_nonzero {
        let waiting_id = if ids == 2 { id0 + 1 } else { id0 };
        waiting_bids.push(Bid {
            user: user.clone(),
            id: waiting_id,
            amount: waiting,
            liq_premium: premium,
            product_snapshot: Decimal256::one(),
            sum_snapshot: Decimal256::zero(),
            pending_liquidated_collateral: Uint256::zero(),
            wait_end: Some(end),
            epoch_snapshot: 0,
            scale_snapshot: 0,
        });
        assert(waiting_bids@.drop_last() =~= slot.waiting_bids@);
    }
    let new_slot = PremiumSlot {
        bids,
        waiting_bids,
        liq_premium: slot.liq_premium,
        sum_snapshot: slot.sum_snapshot,
        product_snapshot: slot.product_snapshot,
        total_bid_amount: new_total,
        last_total: slot.last_total,
        current_epoch: slot.current_epoch,
        current_scale: slot.current_scale,
        residue_collateral: slot.residue_collateral,
        residue_bid: slot.residue_bid,
    };
    let ghost s2 = new_slot@;
    let mut slots: Vec<PremiumSlot> = Vec::new();
    let mut k: usize = 0;
    while k < queue.slots.len()
        invariant
            k <= queue.slots.len(),
            slots@.map_values(|s: PremiumSlot| s@) == queue.slots@.map_values(|s: PremiumSlot| s@).take(k as int),
        decreases queue.slots.len() - k,
    {
        let ghost before = slots@;
        slots.push(queue.slots[k].copy());
        assert(slots@.map_values(|s: PremiumSlot| s@) =~= before.map_values(|s: PremiumSlot| s@).push(queue.slots@[k as int]@));
        assert(queue.slots@.map_values(|s: PremiumSlot| s@).take(k + 1) =~= queue.slots@.map_values(|s: PremiumSlot| s@).take(k as int).push(queue.slots@[k as int]@));
        k = k + 1;
    }
    assert(queue.slots@.map_values(|s: PremiumSlot| s@).take(queue.slots.len() as int) =~= queue.slots@.map_values(|s: PremiumSlot| s@));
    let new_slots = store_slot(slots, new_slot);
    let q2 = Queue {
        bid_asset: crate::liq_queue::types::Asset {
            info: queue.bid_asset.info.copy(),
            amount: queue.bid_asset.amount + active_u128,
        },
        max_premium: queue.max_premium,
        slots: new_slots,
        current_bid_id: id0 + ids,
        bid_threshold: queue.bid_threshold,
    };
    assert(q2@.slots.last() == s2);
    assert(bid_placed(slot@, s2, user@, amount as nat, queue@.bid_threshold, minimum_bid as nat,
        queue.current_bid_id, premium, wait_end.unwrap_or(0)));
    Ok(q2)
}

/// A waiting bid once activated in a slot: it takes the slot's snapshots
/// and stops waiting.
pub open spec fn activated(b: Bid, s: SlotView) -> Bid {
    Bid {
        product_snapshot: dec_of(s.product_snapshot),
        sum_snapshot: dec_of(s.sum_snapshot),
        wait_end: None,
        scale_snapshot: s.current_scale,
        epoch_snapshot: s.current_epoch,
        ..b
    }
}

/// The progress of activating a slot's waiting bids: the active bids, the
/// bids still waiting, the slot total and the queue's bid asset amount.
pub struct Activation {
    pub bids: Seq<Bid>,
    pub waiting: Seq<Bid>,
    pub total: nat,
    pub queued: nat,
}

/// Activate the waiting bids `ws` in order: a bid whose wait has ended, or
/// any bid while the slot total is at most the threshold, becomes active
/// and adds to the totals; the others keep waiting. `None` where a waiting
/// bid has no wait end or a total overflows.
pub open spec fn activate_all(ws: Seq<Bid>, s: SlotView, queued: nat, threshold: nat, now: u64) -> Option<Activation>
    decreases ws.len(),
{
    if ws.len() == 0 {
        Some(Activation { bids: s.bids, waiting: Seq::empty(), total: s.total_bid_amount, queued })
    } else if let Some(st) = activate_all(ws.drop_last(), s, queued, threshold, now) {
        let b = ws.last();
        if b.wait_end is None {
            None
        } else if b.wait_end.unwrap() <= now || st.total <= threshold {
            if st.queued + b.amount.value() < u128_limit() && st.total + b.amount.value() < u256_limit() {
                Some(Activation {
                    bids: st.bids.push(activated(b, s)),
                    waiting: st.waiting,
                    total: st.total + b.amount.value(),
                    queued: st.queued + b.amount.value(),
                })
            } else {
                None
            }
        } else if b.amount.value() == 0 {
            Some(st)
        } else {
            Some(Activation { waiting: st.waiting.push(b), ..st })
        }
    } else {
        None
    }
}

/// Whether the slot's recent total is recent enough and large enough to
/// skip activation.
pub open spec fn activation_skipped(s: SlotView, threshold: nat, waiting_period: u64, now: u64) -> bool {
    now - s.last_total < waiting_period && s.total_bid_amount >= threshold
}

/// Activate the waiting bids of a slot (see `activate_all`), unless the
/// slot was totalled within the waiting period and holds at least the
/// threshold. Answers the new slot and the new bid asset amount of the queue.
pub fn set_slot_total(slot: &PremiumSlot, queued: u128, threshold: Uint256, waiting_period: u64, now: u64) -> (r: Result<(PremiumSlot, u128), LiqQueueError>)
    ensures
        now < slot.last_total ==> r == Err::<(PremiumSlot, u128), LiqQueueError>(LiqQueueError::MathError),
        now >= slot.last_total && activation_skipped(slot@, threshold.value(), waiting_period, now) ==>
            (r matches Ok((s2, q2)) && s2@ == slot@ && q2 == queued),
        now >= slot.last_total && !activation_skipped(slot@, threshold.value(), waiting_period, now) ==> {
            let act = activate_all(slot.waiting_bids@, slot@, queued as nat, threshold.value(), now);
            &&& (r is Ok <==> act is Some)
            &&& (r matches Err(e) ==> e is MathError)
            &&& (r matches Ok((s2, q2)) ==> {
                &&& s2@ == SlotView {
                    bids: act.unwrap().bids,
                    waiting_bids: act.unwrap().waiting,
                    total_bid_amount: act.unwrap().total,
                    last_total: now,
                    ..slot@
                }
                &&& q2 as nat == act.unwrap().queued
            })
        },
{
    if now < slot.last_total {
        return Err(LiqQueueError::MathError);
    }
    if now - slot.last_total < waiting_period && threshold.le(&slot.total_bid_amount) {
        return Ok((slot.copy(), queued));
    }
    let mut bids = crate::liq_queue::types::copy_bids(&slot.bids);
    let mut waiting: Vec<Bid> = Vec::new();
    let mut total = slot.total_bid_amount;
    let mut q = queued;
    let mut i: usize = 0;
    assert(slot.waiting_bids@.take(0) =~= Seq::<Bid>::empty());
    assert(waiting@ =~= Seq::<Bid>::empty());
    while i < slot.waiting_bids.len()
        invariant
            i <= slot.waiting_bids.len(),
            now >= slot.last_total,
            !activation_skipped(slot@, threshold.value(), waiting_period, now),
            activate_all(slot.waiting_bids@.take(i as int), slot@, queued as nat, threshold.value(), now) == Some(Activation {
                bids: bids@,
                waiting: waiting@,
                total: total.value(),
                queued: q as nat,
            }),
        decreases slot.waiting_bids.len() - i,
    {
        let ghost prefix = slot.waiting_bids@.take(i as int);
        assert(slot.waiting_bids@.take(i + 1).drop_last() =~= prefix);
        assert(slot.waiting_bids@.take(i + 1).last() == slot.waiting_bids@[i as int]);
        let b = &slot.waiting_bids[i];
        let end = match b.wait_end {
            Some(e) => e,
            None => {
                proof {
                    lemma_activation_stuck(slot.waiting_bids@, i as int, slot@, queued as nat, threshold.value(), now);
                }
                return Err(LiqQueueError::MathError);
            },
        };
        if end <= now || total.le(&threshold) {
            let amount = match b.amount.to_u128() {
                Some(v) => v,
                None => {
                    proof {
                        lemma_activation_stuck(slot.waiting_bids@, i as int, slot@, queued as nat, threshold.value(), now);
                    }
                    return Err(LiqQueueError::MathError);
                },
            };
            if q > u128::MAX - amount {
                proof {
                    lemma_activation_stuck(slot.waiting_bids@, i as int, slot@, queued as nat, threshold.value(), now);
                }
                return Err(LiqQueueError::MathError);
            }
            let t = match total.checked_add(b.amount) {
                Some(t) => t,
                None => {
                    proof {
                        lemma_activation_stuck(slot.waiting_bids@, i as int, slot@, queued as nat, threshold.value(), now);
                    }
                    return Err(LiqQueueError::MathError);
                },
            };
            q = q + amount;
            total = t;
            proof {
                lemma_dec_of(slot.product_snapshot);
                lemma_dec_of(slot.sum_snapshot);
            }
            bids.push(Bid {
                product_snapshot: slot.product_snapshot,
                sum_snapshot: slot.sum_snapshot,
                wait_end: None,
                scale_snapshot: slot.current_scale,
                epoch_snapshot: slot.current_epoch,
                ..b.copy()
            });
        } else if !b.amount.is_zero() {
            waiting.push(b.copy());
        }
        i = i + 1;
    }
    assert(slot.waiting_bids@.take(slot.waiting_bids.len() as int) =~= slot.waiting_bids@);
    let s2 = PremiumSlot {
        bids,
        waiting_bids: waiting,
        liq_premium: slot.liq_premium,
        sum_snapshot: slot.sum_snapshot,
        product_snapshot: slot.product_snapshot,
        total_bid_amount: total,
        last_total: now,
        current_epoch: slot.current_epoch,
        current_scale: slot.current_scale,
        residue_collateral: slot.residue_collateral,
        residue_bid: slot.residue_bid,
    };
    Ok((s2, q))
}

/// Once a step of the activation fails, the whole activation fails.
pub proof fn lemma_activation_stuck(ws: Seq<Bid>, i: int, s: SlotView, queued: nat, threshold: nat, now: u64)
    requires
        0 <= i < ws.len(),
        activate_all(ws.take(i + 1), s, queued, threshold, now) is None,
    ensures
        activate_all(ws, s, queued, threshold, now) is None,
    decreases ws.len(),
{
    if i + 1 < ws.len() {
        assert(ws.drop_last().take(i + 1) =~= ws.take(i + 1));
        lemma_activation_stuck(ws.drop_last(), i, s, queued, threshold, now);
    } else {
        assert(ws.take(i + 1) =~= ws);
    }
}

} // verus!
