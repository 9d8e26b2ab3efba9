//! Liquidating collateral against a queue: slot by slot from the lowest
//! premium up, each slot's bids buy what they can at the slot's discount.
use vstd::prelude::*;
use crate::math::{Uint256, u256_limit, u128_limit};
use crate::decimal256::{Decimal256, dec_of, lemma_dec_of};
use crate::liq_queue::types::{PremiumSlot, SlotView, Queue, QueueView, PriceResponse256, LiqQueueError};
use crate::liq_queue::sums::ScaleSumEntry;
use crate::liq_queue::store::{find_slot, store_slot, slot_index, replace_slot, lemma_slot_index};
use crate::liq_queue::bidding::{set_slot_total, activate_all, activation_skipped};
use crate::liq_queue::distribution::{
    pool_amounts, pool_snapshots, slot_liquidation_amounts, slot_liquidation_snapshots,
};

verus! {

/// A slot after liquidating up to `collateral` (see `pool_amounts` and
/// `pool_snapshots`): the slot, the sum to record under its old epoch and
/// scale, the amount repaid, the collateral taken, and whether it covered
/// all of `collateral`.
pub open spec fn slot_liquidation(
    s: SlotView,
    collateral: nat,
    price: PriceResponse256,
    credit_price: PriceResponse256,
) -> Option<(SlotView, nat, nat, nat, bool)> {
    if let Some((repay, taken, filled)) = pool_amounts(s.total_bid_amount, s.liq_premium, collateral,
        price.price.v(), price.decimals, credit_price.price.v(), credit_price.decimals) {
        if let Some((sum, product, scale, epoch, stored)) = pool_snapshots(s.total_bid_amount, s.sum_snapshot,
            s.product_snapshot, s.current_scale, s.current_epoch, repay, taken) {
            Some((SlotView {
                sum_snapshot: sum,
                product_snapshot: product,
                current_scale: scale,
                current_epoch: epoch,
                total_bid_amount: (s.total_bid_amount - repay) as nat,
                ..s
            }, stored, repay, taken, filled))
        } else {
            None
        }
    } else {
        None
    }
}

/// Liquidate up to `collateral` against one slot (see `slot_liquidation`).
pub fn liquidate_slot(
    slot: &PremiumSlot,
    collateral: Uint256,
    price: &PriceResponse256,
    credit_price: &PriceResponse256,
) -> (r: Result<(PremiumSlot, Decimal256, Uint256, Uint256, bool), LiqQueueError>)
    ensures
        r is Ok <==> slot_liquidation(slot@, collateral.value(), *price, *credit_price) is Some,
        r matches Err(e) ==> e is MathError,
        r matches Ok((s2, stored, repay, taken, filled)) ==>
            slot_liquidation(slot@, collateral.value(), *price, *credit_price)
                == Some((s2@, stored.v(), repay.value(), taken.value(), filled)),
{
    let (repay, taken, filled) = slot_liquidation_amounts(slot, collateral, price, credit_price)?;
    let (sum, product, scale, epoch, stored) = slot_liquidation_snapshots(slot, repay, taken)?;
    let total = match slot.total_bid_amount.checked_sub(repay) {
        Some(t) => t,
        None => {
            assert(false);
            return Err(LiqQueueError::MathError);
        },
    };
    let s2 = PremiumSlot {
        bids: crate::liq_queue::types::copy_bids(&slot.bids),
        waiting_bids: crate::liq_queue::types::copy_bids(&slot.waiting_bids),
        liq_premium: slot.liq_premium,
        sum_snapshot: sum,
        product_snapshot: product,
        total_bid_amount: total,
        last_total: slot.last_total,
        current_epoch: epoch,
        current_scale: scale,
        residue_collateral: slot.residue_collateral,
        residue_bid: slot.residue_bid,
    };
    Ok((s2, stored, repay, taken, filled))
}

/// The state of a liquidation run across the slots of a queue.
pub struct LiqRun {
    pub slots: Seq<SlotView>,
    pub queued: nat,
    pub remaining: nat,
    pub repaid: nat,
    pub filled: bool,
    pub records: Seq<ScaleSumEntry>,
}

/// The slot after its waiting bids are activated (see `set_slot_total`),
/// and the queue's new bid asset amount.
pub open spec fn totalled(s: SlotView, queued: nat, threshold: nat, waiting_period: u64, now: u64) -> Option<(SlotView, nat)> {
    if now < s.last_total {
        None
    } else if activation_skipped(s, threshold, waiting_period, now) {
        Some((s, queued))
    } else if let Some(act) = activate_all(s.waiting_bids, s, queued, threshold, now) {
        Some((SlotView {
            bids: act.bids,
            waiting_bids: act.waiting,
            total_bid_amount: act.total,
            last_total: now,
            ..s
        }, act.queued))
    } else {
        None
    }
}

/// One premium of a liquidation run: the first slot at premium `p` mod 256
/// (if any) is totalled; a slot with bids then liquidates what remains,
/// is put back last, and its sum is recorded. `None` where an amount
/// overflows.
pub open spec fn liquidation_step(
    st: LiqRun,
    p: nat,
    bid_for: String,
    threshold: nat,
    waiting_period: u64,
    now: u64,
    price: PriceResponse256,
    credit_price: PriceResponse256,
) -> Option<LiqRun> {
    let premium = p % 256;
    match slot_index(st.slots, premium) {
        None => Some(st),
        Some(i) => if let Some((s1, queued)) = totalled(st.slots[i], st.queued, threshold, waiting_period, now) {
            if s1.total_bid_amount == 0 {
                Some(LiqRun { queued, ..st })
            } else if let Some((s2, stored, repay, taken, filled)) = slot_liquidation(s1, st.remaining, price, credit_price) {
                if st.repaid + repay >= u256_limit() || (!filled && taken > st.remaining) {
                    None
                } else {
                    Some(LiqRun {
                        slots: replace_slot(st.slots, s2),
                        queued,
                        remaining: if filled { 0 } else { (st.remaining - taken) as nat },
                        repaid: st.repaid + repay,
                        filled,
                        records: st.records.push(ScaleSumEntry {
                            bid_for,
                            premium: premium as u8,
                            epoch: s1.current_epoch,
                            scale: s1.current_scale,
                            sum: dec_of(stored),
                        }),
                    })
                }
            } else {
                None
            }
        } else {
            None
        },
    }
}

/// The premiums `p .. end` of a liquidation run; it stops once a slot has
/// covered all the collateral.
pub open spec fn liquidation_run(
    st: LiqRun,
    p: nat,
    end: nat,
    bid_for: String,
    threshold: nat,
    waiting_period: u64,
    now: u64,
    price: PriceResponse256,
    credit_price: PriceResponse256,
) -> Option<LiqRun>
    decreases end - p,
{
    if p >= end || st.filled {
        Some(st)
    } else if let Some(next) = liquidation_step(st, p, bid_for, threshold, waiting_period, now, price, credit_price) {
        liquidation_run(next, p + 1, end, bid_for, threshold, waiting_period, now, price, credit_price)
    } else {
        None
    }
}

/// The outcome of liquidating `collateral` against queue `q`: the run over
/// premiums `0 ..= max_premium` must cover all of it, and the bid asset
/// repaid leaves the queue. Answers the new queue view, the sums to record
/// and the amount repaid.
pub open spec fn queue_liquidation(
    q: QueueView,
    collateral: nat,
    bid_for: String,
    waiting_period: u64,
    now: u64,
    price: PriceResponse256,
    credit_price: PriceResponse256,
) -> Result<(QueueView, Seq<ScaleSumEntry>, nat), LiqQueueError> {
    if q.max_premium == u128::MAX {
        Err(LiqQueueError::MathError)
    } else {
        let start = LiqRun { slots: q.slots, queued: q.bid_asset_amount as nat, remaining: collateral, repaid: 0, filled: false, records: Seq::empty() };
        match liquidation_run(start, 0, (q.max_premium + 1) as nat, bid_for, q.bid_threshold, waiting_period, now, price, credit_price) {
            None => Err(LiqQueueError::MathError),
            Some(run) => if run.remaining != 0 {
                Err(LiqQueueError::InsufficientBids)
            } else if run.repaid >= u128_limit() || run.queued >= u128_limit() {
                Err(LiqQueueError::MathError)
            } else if run.repaid > run.queued {
                Err(LiqQueueError::InsufficientBids)
            } else {
                Ok((QueueView { slots: run.slots, bid_asset_amount: (run.queued - run.repaid) as u128, ..q }, run.records, run.repaid))
            },
        }
    }
}

/// The state of a liquidation run, as held while it runs.
pub struct RunState {
    pub slots: Vec<PremiumSlot>,
    pub queued: u128,
    pub remaining: Uint256,
    pub repaid: Uint256,
    pub filled: bool,
    pub records: Vec<ScaleSumEntry>,
}

impl View for RunState {
    type V = LiqRun;

    open spec fn view(&self) -> LiqRun {
        LiqRun {
            slots: self.slots@.map_values(|s: PremiumSlot| s@),
            queued: self.queued as nat,
            remaining: self.remaining.value(),
            repaid: self.repaid.value(),
            filled: self.filled,
            records: self.records@,
        }
    }
}

/// One premium of a liquidation run (see `liquidation_step`).
pub fn run_step(
    st: RunState,
    p: u128,
    bid_for: &String,
    threshold: Uint256,
    waiting_period: u64,
    now: u64,
    price: &PriceResponse256,
    credit_price: &PriceResponse256,
) -> (r: Result<RunState, LiqQueueError>)
    ensures
        match liquidation_step(st@, p as nat, *bid_for, threshold.value(), waiting_period, now, *price, *credit_price) {
            Some(next) => r matches Ok(s2) && s2@ == next,
            None => r == Err::<RunState, LiqQueueError>(LiqQueueError::MathError),
        },
{
    let RunState { slots, queued, remaining, repaid, filled, mut records } = st;
    let premium: u8 = (p % 256) as u8;
    let ghost views = slots@.map_values(|s: PremiumSlot| s@);
    let i = match find_slot(&slots, premium) {
        None => return Ok(RunState { slots, queued, remaining, repaid, filled, records }),
        Some(i) => i,
    };
    proof {
        lemma_slot_index(views, premium as nat);
        assert(views[i as int] == slots@[i as int]@);
    }
    let (s1, q1) = match set_slot_total(&slots[i], queued, threshold, waiting_period, now) {
        Ok(x) => x,
        Err(_) => return Err(LiqQueueError::MathError),
    };
    if s1.total_bid_amount.is_zero() {
        return Ok(RunState { slots, queued: q1, remaining, repaid, filled, records });
    }
    let (s2, stored, repay, taken, f) = match liquidate_slot(&s1, remaining, price, credit_price) {
        Ok(x) => x,
        Err(_) => return Err(LiqQueueError::MathError),
    };
    let new_repaid = match repaid.checked_add(repay) {
        Some(x) => x,
        None => return Err(LiqQueueError::MathError),
    };
    let new_remaining = if f {
        Uint256::zero()
    } else {
        match remaining.checked_sub(taken) {
            Some(x) => x,
            None => return Err(LiqQueueError::MathError),
        }
    };
    records.push(ScaleSumEntry {
        bid_for: bid_for.clone(),
        premium,
        epoch: s1.current_epoch,
        scale: s1.current_scale,
        sum: stored,
    });
    proof {
        lemma_dec_of(stored);
    }
    let new_slots = store_slot(slots, s2);
    Ok(RunState { slots: new_slots, queued: q1, remaining: new_remaining, repaid: new_repaid, filled: f, records })
}

/// Liquidate `collateral` against the queue (see `queue_liquidation`):
/// answers the new queue, the sums to record and the amount repaid.
pub fn liquidate_queue(
    queue: &Queue,
    collateral: Uint256,
    bid_for: &String,
    waiting_period: u64,
    now: u64,
    price: &PriceResponse256,
    credit_price: &PriceResponse256,
) -> (r: Result<(Queue, Vec<ScaleSumEntry>, Uint256), LiqQueueError>)
    ensures
        match queue_liquidation(queue@, collateral.value(), *bid_for, waiting_period, now, *price, *credit_price) {
            Ok((q2, records, repaid)) => r matches Ok((nq, nrecords, nrepaid))
                && nq@ == q2 && nrecords@ == records && nrepaid.value() == repaid,
            Err(e) => r == Err::<(Queue, Vec<ScaleSumEntry>, Uint256), LiqQueueError>(e),
        },
{
    if queue.max_premium == u128::MAX {
        return Err(LiqQueueError::MathError);
    }
    let end = queue.max_premium + 1;

    let mut slots: Vec<PremiumSlot> = Vec::new();
    let mut k: usize = 0;
    while k < queue.slots.len()
        invariant
            k <= queue.slots.len(),
            slots@.map_values(|s: PremiumSlot| s@) == queue.slots@.map_values(|s: PremiumSlot| s@).take(k as int),
        decreases queue.slots.len() - k,
    {
        let ghost before = slots@;
        slots.push(queue.slots[k].copy());
        assert(slots@.map_values(|s: PremiumSlot| s@) =~= before.map_values(|s: PremiumSlot| s@).push(queue.slots@[k as int]@));
        assert(queue.slots@.map_values(|s: PremiumSlot| s@).take(k + 1) =~= queue.slots@.map_values(|s: PremiumSlot| s@).take(k as int).push(queue.slots@[k as int]@));
        k = k + 1;
    }
    assert(queue.slots@.map_values(|s: PremiumSlot| s@).take(queue.slots.len() as int) =~= queue.slots@.map_values(|s: PremiumSlot| s@));

    let mut st = RunState {
        slots,
        queued: queue.bid_asset.amount,
        remaining: collateral,
        repaid: Uint256::zero(),
        filled: false,
        records: Vec::new(),
    };
    let ghost start = st@;
    assert(start.records =~= Seq::<ScaleSumEntry>::empty());
    assert(start == LiqRun { slots: queue@.slots, queued: queue@.bid_asset_amount as nat, remaining: collateral.value(), repaid: 0, filled: false, records: Seq::empty() });
    let ghost total = liquidation_run(start, 0, end as nat, *bid_for, queue@.bid_threshold, waiting_period, now, *price, *credit_price);
    assert(total == liquidation_run(
        LiqRun { slots: queue@.slots, queued: queue@.bid_asset_amount as nat, remaining: collateral.value(), repaid: 0, filled: false, records: Seq::empty() },
        0, (queue@.max_premium + 1) as nat, *bid_for, queue@.bid_threshold, waiting_period, now, *price, *credit_price));
    let mut p: u128 = 0;
    while p < end && !st.filled
        invariant
            p <= end,
            end == queue.max_premium + 1,
            queue.max_premium != u128::MAX,
            total == liquidation_run(
                LiqRun { slots: queue@.slots, queued: queue@.bid_asset_amount as nat, remaining: collateral.value(), repaid: 0, filled: false, records: Seq::empty() },
                0, (queue@.max_premium + 1) as nat, *bid_for, queue@.bid_threshold, waiting_period, now, *price, *credit_price),
            total == liquidation_run(st@, p as nat, end as nat, *bid_for, queue@.bid_threshold, waiting_period, now, *price, *credit_price),
        decreases end - p,
    {
        let ghost before = st@;
        st = match run_step(st, p, bid_for, queue.bid_threshold, waiting_period, now, price, credit_price) {
            Ok(s) => s,
            Err(e) => {
                assert(liquidation_step(before, p as nat, *bid_for, queue@.bid_threshold, waiting_period, now, *price, *credit_price) is None);
                assert(total is None);
                assert(queue_liquidation(queue@, collateral.value(), *bid_for, waiting_period, now, *price, *credit_price)
                    == Err::<(QueueView, Seq<ScaleSumEntry>, nat), LiqQueueError>(LiqQueueError::MathError));
                return Err(e);
            },
        };
        p = p + 1;
    }
    let RunState { slots, queued, remaining, repaid, filled, records } = st;
    if !remaining.is_zero() {
        return Err(LiqQueueError::InsufficientBids);
    }
    let repaid_u128 = match repaid.to_u128() {
        Some(x) => x,
        None => return Err(LiqQueueError::MathError),
    };
    if repaid_u128 > queued {
        return Err(LiqQueueError::InsufficientBids);
    }
    let q2 = Queue {
        bid_asset: crate::liq_queue::types::Asset { info: queue.bid_asset.info.copy(), amount: queued - repaid_u128 },
        max_premium: queue.max_premium,
        slots,
        current_bid_id: queue.current_bid_id,
        bid_threshold: queue.bid_threshold,
    };
    Ok((q2, records, repaid))
}

} // verus!
