//! Retracting bids and claiming liquidated collateral, slot by slot.
use vstd::prelude::*;
use crate::math::{Uint256, fraction, u256_limit, u256_of, lemma_u256_of};
use crate::decimal256::{Decimal256, dec_of, lemma_dec_of};
use crate::liq_queue::types::{Bid, PremiumSlot, SlotView, LiqQueueError};
use crate::liq_queue::sums::ScaleSums;
use crate::liq_queue::store::{without_bid, remove_bid_id};
use crate::liq_queue::distribution::{
    calculate_remaining_bid, calculate_liquidated_collateral, split_decimal, remaining_bid_dec,
    liquidated_collateral_dec,
};

verus! {

/// The amount that may be withdrawn from `withdrawable`: all of it when no
/// amount is asked for; otherwise the asked amount, unless it exceeds what
/// is withdrawable or leaves a nonzero remainder below the minimum bid.
pub open spec fn withdraw_amount(requested: Option<nat>, withdrawable: nat, minimum: nat) -> Option<nat> {
    match requested {
        Some(w) => if w > withdrawable {
            None
        } else if withdrawable - w < minimum && withdrawable - w > 0 {
            None
        } else {
            Some(w)
        },
        None => Some(withdrawable),
    }
}

pub fn assert_withdraw_amount(requested: Option<Uint256>, withdrawable: Uint256, minimum: Uint256) -> (r: Result<Uint256, LiqQueueError>)
    ensures
        withdraw_amount(match requested { Some(w) => Some(w.value()), None => None }, withdrawable.value(), minimum.value())
            matches Some(w) ==> (r matches Ok(x) && x.value() == w),
        withdraw_amount(match requested { Some(w) => Some(w.value()), None => None }, withdrawable.value(), minimum.value())
            is None ==> r == Err::<Uint256, LiqQueueError>(LiqQueueError::InvalidWithdrawal),
{
    match requested {
        Some(w) => {
            if withdrawable.lt(&w) {
                return Err(LiqQueueError::InvalidWithdrawal);
            }
            let rest = match withdrawable.checked_sub(w) {
                Some(x) => x,
                None => return Err(LiqQueueError::InvalidWithdrawal),
            };
            if rest.lt(&minimum) && !rest.is_zero() {
                return Err(LiqQueueError::InvalidWithdrawal);
            }
            Ok(w)
        },
        None => Ok(withdrawable),
    }
}

/// The requested amount as a number.
pub open spec fn requested_value(requested: Option<Uint256>) -> Option<nat> {
    match requested {
        Some(w) => Some(w.value()),
        None => None,
    }
}

/// The outcome of retracting (part of) a waiting bid from its slot: the
/// bid is dropped when all of it is withdrawn, else kept waiting (last)
/// with the rest. Answers the new slot and the amount refunded.
pub open spec fn waiting_retract_outcome(bid: Bid, s: SlotView, requested: Option<nat>, minimum: nat) -> Result<(SlotView, nat), LiqQueueError> {
    match withdraw_amount(requested, bid.amount.value(), minimum) {
        None => Err(LiqQueueError::InvalidWithdrawal),
        Some(w) => if w == bid.amount.value() {
            Ok((SlotView {
                bids: without_bid(s.bids, bid.id),
                waiting_bids: without_bid(s.waiting_bids, bid.id),
                ..s
            }, w))
        } else {
            Ok((SlotView {
                waiting_bids: without_bid(s.waiting_bids, bid.id).push(Bid { amount: u256_of((bid.amount.value() - w) as nat), ..bid }),
                ..s
            }, w))
        },
    }
}

/// Retract (part of) a waiting bid from its slot (see `waiting_retract_outcome`).
pub fn retract_waiting(slot: &PremiumSlot, bid: &Bid, requested: Option<Uint256>, minimum: Uint256) -> (r: Result<(PremiumSlot, Uint256), LiqQueueError>)
    ensures
        slot_result(r) == waiting_retract_outcome(*bid, slot@, requested_value(requested), minimum.value()),
{
    let w = assert_withdraw_amount(requested, bid.amount, minimum)?;
    let bids;
    let waiting;
    if w.eq(&bid.amount) {
        bids = remove_bid_id(&slot.bids, bid.id);
        waiting = remove_bid_id(&slot.waiting_bids, bid.id);
    } else {
        let rest = match bid.amount.checked_sub(w) {
            Some(x) => x,
            None => return Err(LiqQueueError::InvalidWithdrawal),
        };
        proof { lemma_u256_of(rest); }
        bids = crate::liq_queue::types::copy_bids(&slot.bids);
        let mut ws = remove_bid_id(&slot.waiting_bids, bid.id);
        ws.push(Bid { amount: rest, ..bid.copy() });
        waiting = ws;
    }
    let s2 = PremiumSlot {
        bids,
        waiting_bids: waiting,
        liq_premium: slot.liq_premium,
        sum_snapshot: slot.sum_snapshot,
        product_snapshot: slot.product_snapshot,
        total_bid_amount: slot.total_bid_amount,
        last_total: slot.last_total,
        current_epoch: slot.current_epoch,
        current_scale: slot.current_scale,
        residue_collateral: slot.residue_collateral,
        residue_bid: slot.residue_bid,
    };
    Ok((s2, w))
}

/// What an active bid has to show against its slot: its remaining amount
/// and residue, and the collateral it earned and residue.
pub open spec fn bid_standing(sums: ScaleSums, bid: Bid, slot: SlotView, bid_for: Seq<char>) -> Option<(nat, nat, nat, nat)> {
    if slot.current_scale < bid.scale_snapshot || slot.current_epoch < bid.epoch_snapshot || bid.scale_snapshot == u128::MAX {
        None
    } else if let Some(rem) = remaining_bid_dec(
        bid.amount.value(),
        slot.product_snapshot,
        bid.product_snapshot.v(),
        (slot.current_scale - bid.scale_snapshot) as nat,
        (slot.current_epoch - bid.epoch_snapshot) as nat,
    ) {
        let reference = match sums.get(bid_for, bid.liq_premium, bid.epoch_snapshot, bid.scale_snapshot) {
            Some(s) => s.v(),
            None => 0nat,
        };
        if let Some(liq) = liquidated_collateral_dec(
            bid.amount.value(),
            bid.sum_snapshot.v(),
            bid.product_snapshot.v(),
            reference,
            sums.get(bid_for, bid.liq_premium, bid.epoch_snapshot, (bid.scale_snapshot + 1) as u128),
        ) {
            Some((rem / fraction(), rem % fraction(), liq / fraction(), liq % fraction()))
        } else {
            None
        }
    } else {
        None
    }
}

/// The remaining amount and earned collateral of an active bid (see
/// `bid_standing`): (remaining, remaining residue, collateral, collateral residue).
pub fn standing(sums: &ScaleSums, bid: &Bid, slot: &PremiumSlot, bid_for: &String) -> (r: Result<(Uint256, Decimal256, Uint256, Decimal256), LiqQueueError>)
    ensures
        (slot.current_scale < bid.scale_snapshot || slot.current_epoch < bid.epoch_snapshot) ==>
            r == Err::<(Uint256, Decimal256, Uint256, Decimal256), LiqQueueError>(LiqQueueError::SnapshotAhead),
        !(slot.current_scale < bid.scale_snapshot || slot.current_epoch < bid.epoch_snapshot) ==> {
            &&& (r is Ok <==> bid_standing(*sums, *bid, slot@, bid_for@) is Some)
            &&& (r matches Err(e) ==> e is MathError)
            &&& (r matches Ok((rem, rb, liq, rc)) ==>
                bid_standing(*sums, *bid, slot@, bid_for@) == Some((rem.value(), rb.v(), liq.value(), rc.v())))
        },
{
    let (rem, rb) = calculate_remaining_bid(bid, slot)?;
    let (liq, rc) = calculate_liquidated_collateral(sums, bid, bid_for)?;
    Ok((rem, rb, liq, rc))
}

/// The outcome of retracting (part of) an active bid from its slot: the
/// collateral it earned becomes pending, its residues stay in the slot,
/// and the amount withdrawn (see `withdraw_amount`, against what remains of
/// the bid) leaves the slot total. The bid is dropped when its original
/// amount is withdrawn with nothing pending, else kept (last) with the rest,
/// the slot's snapshots and its pending collateral. The whole units of the
/// slot's bid residue are refunded with the amount withdrawn.
pub open spec fn active_retract_outcome(sums: ScaleSums, bid: Bid, s: SlotView, bid_for: Seq<char>, requested: Option<nat>, minimum: nat) -> Result<(SlotView, nat), LiqQueueError> {
    if s.current_scale < bid.scale_snapshot || s.current_epoch < bid.epoch_snapshot {
        Err(LiqQueueError::SnapshotAhead)
    } else if let Some((rem, rb, liq, rc)) = bid_standing(sums, bid, s, bid_for) {
        let pending = bid.pending_liquidated_collateral.value() + liq;
        let residue_collateral = s.residue_collateral + rc;
        let residue_bid = s.residue_bid + rb;
        if pending >= u256_limit() || residue_collateral >= u256_limit() || residue_bid >= u256_limit() {
            Err(LiqQueueError::MathError)
        } else {
            match withdraw_amount(requested, rem, minimum) {
                None => Err(LiqQueueError::InvalidWithdrawal),
                Some(w) => {
                    let refund = w + residue_bid / fraction();
                    if w > s.total_bid_amount || refund >= u256_limit() {
                        Err(LiqQueueError::MathError)
                    } else {
                        let (bids, waiting) = if w == bid.amount.value() && pending == 0 {
                            (without_bid(s.bids, bid.id), without_bid(s.waiting_bids, bid.id))
                        } else {
                            (without_bid(s.bids, bid.id).push(Bid {
                                amount: u256_of((rem - w) as nat),
                                product_snapshot: dec_of(s.product_snapshot),
                                sum_snapshot: dec_of(s.sum_snapshot),
                                scale_snapshot: s.current_scale,
                                pending_liquidated_collateral: u256_of(pending),
                                ..bid
                            }), s.waiting_bids)
                        };
                        Ok((SlotView {
                            bids,
                            waiting_bids: waiting,
                            total_bid_amount: (s.total_bid_amount - w) as nat,
                            residue_collateral,
                            residue_bid: residue_bid % fraction(),
                            ..s
                        }, refund))
                    }
                },
            }
        }
    } else {
        Err(LiqQueueError::MathError)
    }
}

/// Retract (part of) an active bid from its slot (see `active_retract_outcome`).
pub fn retract_active(
    slot: &PremiumSlot,
    sums: &ScaleSums,
    bid_for: &String,
    bid: &Bid,
    requested: Option<Uint256>,
    minimum: Uint256,
) -> (r: Result<(PremiumSlot, Uint256), LiqQueueError>)
    ensures
        slot_result(r) == active_retract_outcome(*sums, *bid, slot@, bid_for@, requested_value(requested), minimum.value()),
{
    let (rem, rb, liq, rc) = standing(sums, bid, slot, bid_for)?;
    let pending = match bid.pending_liquidated_collateral.checked_add(liq) {
        Some(x) => x,
        None => return Err(LiqQueueError::MathError),
    };
    let residue_collateral = match slot.residue_collateral.checked_add(rc) {
        Some(x) => x,
        None => return Err(LiqQueueError::MathError),
    };
    let residue_bid = match slot.residue_bid.checked_add(rb) {
        Some(x) => x,
        None => return Err(LiqQueueError::MathError),
    };
    let w = assert_withdraw_amount(requested, rem, minimum)?;
    let total = match slot.total_bid_amount.checked_sub(w) {
        Some(x) => x,
        None => return Err(LiqQueueError::MathError),
    };
    let (units, rest_residue) = split_decimal(residue_bid);
    let refund = match w.checked_add(units) {
        Some(x) => x,
        None => return Err(LiqQueueError::MathError),
    };
    let bids;
    let waiting;
    if w.eq(&bid.amount) && pending.is_zero() {
        bids = remove_bid_id(&slot.bids, bid.id);
        waiting = remove_bid_id(&slot.waiting_bids, bid.id);
    } else {
        let rest = match rem.checked_sub(w) {
            Some(x) => x,
            None => return Err(LiqQueueError::MathError),
        };
        proof {
            lemma_u256_of(rest);
            lemma_u256_of(pending);
            lemma_dec_of(slot.product_snapshot);
            lemma_dec_of(slot.sum_snapshot);
        }
        let mut bs = remove_bid_id(&slot.bids, bid.id);
        bs.push(Bid {
            amount: rest,
            product_snapshot: slot.product_snapshot,
            sum_snapshot: slot.sum_snapshot,
            scale_snapshot: slot.current_scale,
            pending_liquidated_collateral: pending,
            ..bid.copy()
        });
        bids = bs;
        waiting = crate::liq_queue::types::copy_bids(&slot.waiting_bids);
    }
    let s2 = PremiumSlot {
        bids,
        waiting_bids: waiting,
        liq_premium: slot.liq_premium,
        sum_snapshot: slot.sum_snapshot,
        product_snapshot: slot.product_snapshot,
        total_bid_amount: total,
        last_total: slot.last_total,
        current_epoch: slot.current_epoch,
        current_scale: slot.current_scale,
        residue_collateral,
        residue_bid: rest_residue,
    };
    Ok((s2, refund))
}

/// The outcome of claiming a bid's collateral in its slot: the bid's
/// pending and earned collateral and the whole units of the slot's
/// collateral residue are claimed; the bid is dropped when at most one unit
/// of it remains, else kept (in its list) with its remaining amount, the
/// slot's snapshots and nothing pending. Answers the new slot and the
/// amount claimed.
pub open spec fn claim_outcome(sums: ScaleSums, bid: Bid, s: SlotView, bid_for: Seq<char>) -> Result<(SlotView, nat), LiqQueueError> {
    if s.current_scale < bid.scale_snapshot || s.current_epoch < bid.epoch_snapshot {
        Err(LiqQueueError::SnapshotAhead)
    } else if let Some((rem, rb, liq, rc)) = bid_standing(sums, bid, s, bid_for) {
        let residue_collateral = s.residue_collateral + rc;
        let residue_bid = s.residue_bid + rb;
        let earned = bid.pending_liquidated_collateral.value() + liq;
        let claimed = earned + residue_collateral / fraction();
        if residue_collateral >= u256_limit() || residue_bid >= u256_limit() || earned >= u256_limit()
            || claimed >= u256_limit() {
            Err(LiqQueueError::MathError)
        } else {
            let kept = Bid {
                amount: u256_of(rem),
                product_snapshot: dec_of(s.product_snapshot),
                sum_snapshot: dec_of(s.sum_snapshot),
                scale_snapshot: s.current_scale,
                pending_liquidated_collateral: u256_of(0),
                ..bid
            };
            let (bids, waiting) = if rem <= 1 {
                (without_bid(s.bids, bid.id), without_bid(s.waiting_bids, bid.id))
            } else if bid.wait_end is None {
                (without_bid(s.bids, bid.id).push(kept), s.waiting_bids)
            } else {
                (s.bids, without_bid(s.waiting_bids, bid.id).push(kept))
            };
            Ok((SlotView {
                bids,
                waiting_bids: waiting,
                residue_collateral: residue_collateral % fraction(),
                residue_bid,
                ..s
            }, claimed))
        }
    } else {
        Err(LiqQueueError::MathError)
    }
}

/// A slot and amount as values, or the error.
pub open spec fn slot_result(r: Result<(PremiumSlot, Uint256), LiqQueueError>) -> Result<(SlotView, nat), LiqQueueError> {
    match r {
        Ok((s, a)) => Ok((s@, a.value())),
        Err(e) => Err(e),
    }
}

/// Claim the collateral of a bid in its slot (see `claim_outcome`).
pub fn claim_bid(
    slot: &PremiumSlot,
    sums: &ScaleSums,
    bid_for: &String,
    bid: &Bid,
) -> (r: Result<(PremiumSlot, Uint256), LiqQueueError>)
    ensures
        slot_result(r) == claim_outcome(*sums, *bid, slot@, bid_for@),
{
    let (rem, rb, liq, rc) = standing(sums, bid, slot, bid_for)?;
    let residue_collateral = match slot.residue_collateral.checked_add(rc) {
        Some(x) => x,
        None => return Err(LiqQueueError::MathError),
    };
    let residue_bid = match slot.residue_bid.checked_add(rb) {
        Some(x) => x,
        None => return Err(LiqQueueError::MathError),
    };
    let (units, rest_residue) = split_decimal(residue_collateral);
    let earned = match bid.pending_liquidated_collateral.checked_add(liq) {
        Some(x) => x,
        None => return Err(LiqQueueError::MathError),
    };
    let claimed = match earned.checked_add(units) {
        Some(x) => x,
        None => return Err(LiqQueueError::MathError),
    };
    let zero = Uint256::zero();
    proof {
        lemma_u256_of(rem);
        lemma_u256_of(zero);
        lemma_dec_of(slot.product_snapshot);
        lemma_dec_of(slot.sum_snapshot);
    }
    let kept = Bid {
        amount: rem,
        product_snapshot: slot.product_snapshot,
        sum_snapshot: slot.sum_snapshot,
        scale_snapshot: slot.current_scale,
        pending_liquidated_collateral: zero,
        ..bid.copy()
    };
    let bids;
    let waiting;
    if rem.le(&Uint256::one()) {
        bids = remove_bid_id(&slot.bids, bid.id);
        waiting = remove_bid_id(&slot.waiting_bids, bid.id);
    } else if bid.wait_end.is_none() {
        let mut bs = remove_bid_id(&slot.bids, bid.id);
        bs.push(kept);
        bids = bs;
        waiting = crate::liq_queue::types::copy_bids(&slot.waiting_bids);
    } else {
        let mut ws = remove_bid_id(&slot.waiting_bids, bid.id);
        ws.push(kept);
        waiting = ws;
        bids = crate::liq_queue::types::copy_bids(&slot.bids);
    }
    let s2 = PremiumSlot {
        bids,
        waiting_bids: waiting,
        liq_premium: slot.liq_premium,
        sum_snapshot: slot.sum_snapshot,
        product_snapshot: slot.product_snapshot,
        total_bid_amount: slot.total_bid_amount,
        last_total: slot.last_total,
        current_epoch: slot.current_epoch,
        current_scale: slot.current_scale,
        residue_collateral: rest_residue,
        residue_bid,
    };
    Ok((s2, claimed))
}

} // verus!
