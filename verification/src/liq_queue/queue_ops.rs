//! Operations on one queue: finding bids, retracting a bid, claiming
//! liquidated collateral.
use vstd::prelude::*;
use crate::math::{Uint256, u256_limit, u128_limit};
use crate::liq_queue::types::{Bid, PremiumSlot, SlotView, Queue, QueueView, LiqQueueError};
use crate::liq_queue::sums::ScaleSums;
use crate::liq_queue::store::{
    find_slot, store_slot, slot_index, replace_slot, lemma_slot_index, find_bid, find_bid_spec,
};
use crate::liq_queue::withdraw::{claim_bid, claim_outcome, retract_waiting, retract_active,
    waiting_retract_outcome, active_retract_outcome, requested_value};

verus! {

/// The bid with id `id` in the slots at premiums `p ..= last`, searched in
/// premium order (active bids before waiting ones); a premium without a
/// slot is an error.
pub open spec fn read_bid_from(slots: Seq<SlotView>, p: nat, last: nat, id: u128) -> Result<Bid, LiqQueueError>
    decreases last + 1 - p,
{
    if p > last {
        Err(LiqQueueError::BidNotFound)
    } else {
        match slot_index(slots, p) {
            None => Err(LiqQueueError::InvalidPremium),
            Some(i) => match find_bid_spec(slots[i].bids, id) {
                Some(b) => Ok(b),
                None => match find_bid_spec(slots[i].waiting_bids, id) {
                    Some(b) => Ok(b),
                    None => read_bid_from(slots, p + 1, last, id),
                },
            },
        }
    }
}

/// The bid with id `id` in the queue, searched over premiums
/// `0 ..= max_premium` (read modulo 256; 255 overflows the range's end).
pub open spec fn read_bid_spec(q: QueueView, id: u128) -> Result<Bid, LiqQueueError> {
    let last = q.max_premium as nat % 256;
    if last == 255 {
        Err(LiqQueueError::MathError)
    } else {
        read_bid_from(q.slots, 0, last, id)
    }
}

/// A copy of the bid with id `id` (see `read_bid_spec`).
pub fn read_bid(queue: &Queue, id: u128) -> (r: Result<Bid, LiqQueueError>)
    ensures
        r == read_bid_spec(queue@, id),
{
    let last: u8 = (queue.max_premium % 256) as u8;
    if last == 255 {
        return Err(LiqQueueError::MathError);
    }
    let ghost views = queue@.slots;
    let mut p: u8 = 0;
    while p <= last
        invariant
            last < 255,
            p <= last + 1,
            views == queue@.slots,
            last as nat == queue@.max_premium as nat % 256,
            read_bid_spec(queue@, id) == read_bid_from(views, p as nat, last as nat, id),
        decreases last + 1 - p,
    {
        let i = match find_slot(&queue.slots, p) {
            Some(i) => i,
            None => return Err(LiqQueueError::InvalidPremium),
        };
        proof {
            lemma_slot_index(views, p as nat);
            assert(views[i as int] == queue.slots@[i as int]@);
        }
        match find_bid(&queue.slots[i].bids, id) {
            Some(b) => return Ok(b),
            None => {},
        }
        match find_bid(&queue.slots[i].waiting_bids, id) {
            Some(b) => return Ok(b),
            None => {},
        }
        p = p + 1;
    }
    Err(LiqQueueError::BidNotFound)
}

/// The active bids of `user` with ids above `start`, slot by slot.
pub open spec fn user_bids(slots: Seq<SlotView>, user: Seq<char>, start: u128) -> Seq<Bid>
    decreases slots.len(),
{
    if slots.len() == 0 {
        Seq::empty()
    } else {
        user_bids(slots.drop_last(), user, start)
            + slots.last().bids.filter(|b: Bid| b.id > start && b.user@ == user)
    }
}

/// The first `limit` of the bids.
pub open spec fn limited(bids: Seq<Bid>, limit: int) -> Seq<Bid> {
    bids.take(if limit < bids.len() { limit } else { bids.len() as int })
}

/// The first `limit` active bids of `user` with ids above `start_after`
/// (see `user_bids`).
pub fn read_bids_by_user(queue: &Queue, user: &String, limit: Option<u32>, start_after: Option<u128>) -> (r: Vec<Bid>)
    ensures
        ({
            let limit = match limit { Some(l) => l as int, None => 2147483646 };
            let start = match start_after { Some(s) => s, None => 0 };
            r@ == limited(user_bids(queue@.slots, user@, start), limit)
        }),
{
    let limit: usize = match limit {
        Some(l) => l as usize,
        None => 2147483646usize,
    };
    let start: u128 = match start_after {
        Some(s) => s,
        None => 0,
    };
    let ghost views = queue@.slots;
    let mut all: Vec<Bid> = Vec::new();
    let mut k: usize = 0;
    while k < queue.slots.len()
        invariant
            k <= queue.slots.len(),
            views == queue@.slots,
            all@ == user_bids(views.take(k as int), user@, start),
        decreases queue.slots.len() - k,
    {
        let slot = &queue.slots[k];
        let ghost pred = |b: Bid| b.id > start && b.user@ == user@;
        let ghost before = all@;
        let mut j: usize = 0;
        while j < slot.bids.len()
            invariant
                j <= slot.bids.len(),
                pred == (|b: Bid| b.id > start && b.user@ == user@),
                all@ == before + slot.bids@.take(j as int).filter(pred),
            decreases slot.bids.len() - j,
        {
            proof {
                assert(slot.bids@.take(j + 1) =~= slot.bids@.take(j as int).push(slot.bids@[j as int]));
                slot.bids@.take(j as int).lemma_filter_push(slot.bids@[j as int], pred);
            }
            if slot.bids[j].id > start && slot.bids[j].user == *user {
                all.push(slot.bids[j].copy());
                assert(all@ =~= before + slot.bids@.take(j + 1).filter(pred));
            }
            j = j + 1;
        }
        assert(slot.bids@.take(slot.bids.len() as int) =~= slot.bids@);
        assert(views.take(k + 1).drop_last() =~= views.take(k as int));
        assert(views.take(k + 1).last() == slot@);
        k = k + 1;
    }
    assert(views.take(queue.slots.len() as int) =~= views);
    let mut r: Vec<Bid> = Vec::new();
    let mut i: usize = 0;
    while i < all.len() && i < limit
        invariant
            i <= all.len(),
            i <= limit,
            r@ == all@.take(i as int),
        decreases all.len() - i,
    {
        r.push(all[i].copy());
        assert(all@.take(i + 1) =~= all@.take(i as int).push(all@[i as int]));
        i = i + 1;
    }
    assert(r@ =~= all@.take(if (limit as int) < all@.len() { limit as int } else { all@.len() as int }));
    r
}

/// One bid of a claim: it must belong to the claimer; a bid still waiting
/// is skipped; otherwise its slot is claimed (see `claim_outcome`) and put
/// back last.
pub open spec fn claim_step(
    acc: Result<(Seq<SlotView>, nat), LiqQueueError>,
    b: Bid,
    sums: ScaleSums,
    bid_for: Seq<char>,
    sender: Seq<char>,
    now: u64,
) -> Result<(Seq<SlotView>, nat), LiqQueueError> {
    match acc {
        Err(e) => Err(e),
        Ok((slots, claimed)) => if b.user@ != sender {
            Err(LiqQueueError::Unauthorized)
        } else if b.wait_end is Some && b.wait_end.unwrap() > now {
            Ok((slots, claimed))
        } else {
            match slot_index(slots, b.liq_premium as nat) {
                None => Err(LiqQueueError::InvalidPremium),
                Some(i) => match claim_outcome(sums, b, slots[i], bid_for) {
                    Err(e) => Err(e),
                    Ok((s2, x)) => if claimed + x >= u256_limit() {
                        Err(LiqQueueError::MathError)
                    } else {
                        Ok((replace_slot(slots, s2), claimed + x))
                    },
                },
            }
        },
    }
}

/// Claim the bids `bids` in order from the slots (see `claim_step`).
pub open spec fn claim_all(
    slots: Seq<SlotView>,
    bids: Seq<Bid>,
    sums: ScaleSums,
    bid_for: Seq<char>,
    sender: Seq<char>,
    now: u64,
) -> Result<(Seq<SlotView>, nat), LiqQueueError>
    decreases bids.len(),
{
    if bids.len() == 0 {
        Ok((slots, 0))
    } else {
        claim_step(claim_all(slots, bids.drop_last(), sums, bid_for, sender, now), bids.last(), sums, bid_for, sender, now)
    }
}

pub proof fn lemma_claim_stuck(slots: Seq<SlotView>, bids: Seq<Bid>, k: int, sums: ScaleSums, bid_for: Seq<char>, sender: Seq<char>, now: u64)
    requires
        0 <= k <= bids.len(),
        claim_all(slots, bids.take(k), sums, bid_for, sender, now) is Err,
    ensures
        claim_all(slots, bids, sums, bid_for, sender, now) == claim_all(slots, bids.take(k), sums, bid_for, sender, now),
    decreases bids.len(),
{
    if k < bids.len() {
        assert(bids.drop_last().take(k) =~= bids.take(k));
        lemma_claim_stuck(slots, bids.drop_last(), k, sums, bid_for, sender, now);
    } else {
        assert(bids.take(k) =~= bids);
    }
}

/// Claim the liquidated collateral of the bids `bids` (see `claim_all`):
/// answers the new queue and the collateral claimed.
pub fn claim_in_queue(
    queue: &Queue,
    sums: &ScaleSums,
    bid_for: &String,
    bids: &Vec<Bid>,
    sender: &String,
    now: u64,
) -> (r: Result<(Queue, Uint256), LiqQueueError>)
    ensures
        match claim_all(queue@.slots, bids@, *sums, bid_for@, sender@, now) {
            Ok((slots, claimed)) => r matches Ok((q2, c)) && q2@ == QueueView { slots, ..queue@ } && c.value() == claimed,
            Err(e) => r == Err::<(Queue, Uint256), LiqQueueError>(e),
        },
{
    let mut slots: Vec<PremiumSlot> = Vec::new();
    let mut k: usize = 0;
    while k < queue.slots.len()
        invariant
            k <= queue.slots.len(),
            slots@.map_values(|s: PremiumSlot| s@) == queue.slots@.map_values(|s: PremiumSlot| s@).take(k as int),
        decreases queue.slots.len() - k,
    {
        let ghost before = slots@;
        slots.push(queue.slots[k].copy());
        assert(slots@.map_values(|s: PremiumSlot| s@) =~= before.map_values(|s: PremiumSlot| s@).push(queue.slots@[k as int]@));
        assert(queue.slots@.map_values(|s: PremiumSlot| s@).take(k + 1) =~= queue.slots@.map_values(|s: PremiumSlot| s@).take(k as int).push(queue.slots@[k as int]@));
        k = k + 1;
    }
    assert(queue.slots@.map_values(|s: PremiumSlot| s@).take(queue.slots.len() as int) =~= queue.slots@.map_values(|s: PremiumSlot| s@));

    let mut claimed = Uint256::zero();
    let mut i: usize = 0;
    assert(bids@.take(0) =~= Seq::<Bid>::empty());
    while i < bids.len()
        invariant
            i <= bids.len(),
            claim_all(queue@.slots, bids@.take(i as int), *sums, bid_for@, sender@, now)
                == Ok::<(Seq<SlotView>, nat), LiqQueueError>((slots@.map_values(|s: PremiumSlot| s@), claimed.value())),
        decreases bids.len() - i,
    {
        let b = &bids[i];
        let ghost views = slots@.map_values(|s: PremiumSlot| s@);
        assert(bids@.take(i + 1).drop_last() =~= bids@.take(i as int));
        assert(bids@.take(i + 1).last() == bids@[i as int]);
        if b.user != *sender {
            proof { lemma_claim_stuck(queue@.slots, bids@, i + 1, *sums, bid_for@, sender@, now); }
            return Err(LiqQueueError::Unauthorized);
        }
        let waiting = match b.wait_end {
            Some(end) => end > now,
            None => false,
        };
        if !waiting {
            let j = match find_slot(&slots, b.liq_premium) {
                Some(j) => j,
                None => {
                    proof { lemma_claim_stuck(queue@.slots, bids@, i + 1, *sums, bid_for@, sender@, now); }
                    return Err(LiqQueueError::InvalidPremium);
                },
            };
            proof {
                lemma_slot_index(views, b.liq_premium as nat);
                assert(views[j as int] == slots@[j as int]@);
            }
            let (s2, x) = match claim_bid(&slots[j], sums, bid_for, b) {
                Ok(v) => v,
                Err(e) => {
                    proof { lemma_claim_stuck(queue@.slots, bids@, i + 1, *sums, bid_for@, sender@, now); }
                    return Err(e);
                },
            };
            claimed = match claimed.checked_add(x) {
                Some(c) => c,
                None => {
                    proof { lemma_claim_stuck(queue@.slots, bids@, i + 1, *sums, bid_for@, sender@, now); }
                    return Err(LiqQueueError::MathError);
                },
            };
            slots = store_slot(slots, s2);
        }
        i = i + 1;
    }
    assert(bids@.take(bids.len() as int) =~= bids@);
    let q2 = Queue {
        bid_asset: crate::liq_queue::types::Asset { info: queue.bid_asset.info.copy(), amount: queue.bid_asset.amount },
        max_premium: queue.max_premium,
        slots,
        current_bid_id: queue.current_bid_id,
        bid_threshold: queue.bid_threshold,
    };
    Ok((q2, claimed))
}

/// The outcome of `sender` retracting (part of) bid `id` from queue `q`:
/// the bid must be theirs; a waiting bid follows `waiting_retract_outcome`,
/// an active one `active_retract_outcome`; the bid's slot moves last and
/// the refund leaves the queue's bid asset amount.
pub open spec fn retract_outcome(
    q: QueueView,
    sums: ScaleSums,
    bid_for: Seq<char>,
    sender: Seq<char>,
    id: u128,
    requested: Option<nat>,
    minimum: nat,
) -> Result<(QueueView, nat), LiqQueueError> {
    match read_bid_spec(q, id) {
        Err(e) => Err(e),
        Ok(b) => if b.user@ != sender {
            Err(LiqQueueError::Unauthorized)
        } else {
            match slot_index(q.slots, b.liq_premium as nat) {
                None => Err(LiqQueueError::InvalidPremium),
                Some(i) => {
                    let out = if b.wait_end is Some {
                        waiting_retract_outcome(b, q.slots[i], requested, minimum)
                    } else {
                        active_retract_outcome(sums, b, q.slots[i], bid_for, requested, minimum)
                    };
                    match out {
                        Err(e) => Err(e),
                        Ok((s2, refund)) => if refund == 0 {
                            Ok((QueueView { slots: replace_slot(q.slots, s2), ..q }, 0))
                        } else if refund >= u128_limit() || refund > q.bid_asset_amount {
                            Err(LiqQueueError::MathError)
                        } else {
                            Ok((QueueView {
                                slots: replace_slot(q.slots, s2),
                                bid_asset_amount: (q.bid_asset_amount - refund) as u128,
                                ..q
                            }, refund))
                        },
                    }
                },
            }
        },
    }
}

/// Retract (part of) a bid (see `retract_outcome`): answers the new queue
/// and the refund.
pub fn retract_in_queue(
    queue: &Queue,
    sums: &ScaleSums,
    bid_for: &String,
    sender: &String,
    id: u128,
    requested: Option<Uint256>,
    minimum: Uint256,
) -> (r: Result<(Queue, Uint256), LiqQueueError>)
    ensures
        match retract_outcome(queue@, *sums, bid_for@, sender@, id, requested_value(requested), minimum.value()) {
            Ok((q2, refund)) => r matches Ok((nq, nrefund)) && nq@ == q2 && nrefund.value() == refund,
            Err(e) => r == Err::<(Queue, Uint256), LiqQueueError>(e),
        },
{
    let bid = read_bid(queue, id)?;
    if bid.user != *sender {
        return Err(LiqQueueError::Unauthorized);
    }
    let ghost views = queue@.slots;
    let i = match find_slot(&queue.slots, bid.liq_premium) {
        Some(i) => i,
        None => return Err(LiqQueueError::InvalidPremium),
    };
    proof {
        lemma_slot_index(views, bid.liq_premium as nat);
        assert(views[i as int] == queue.slots@[i as int]@);
    }
    let (s2, refund) = if bid.wait_end.is_some() {
        retract_waiting(&queue.slots[i], &bid, requested, minimum)?
    } else {
        retract_active(&queue.slots[i], sums, bid_for, &bid, requested, minimum)?
    };
    let mut amount = queue.bid_asset.amount;
    if !refund.is_zero() {
        let r = match refund.to_u128() {
            Some(x) => x,
            None => return Err(LiqQueueError::MathError),
        };
        if r > amount {
            return Err(LiqQueueError::MathError);
        }
        amount = amount - r;
    }
    let mut slots: Vec<PremiumSlot> = Vec::new();
    let mut k: usize = 0;
    while k < queue.slots.len()
        invariant
            k <= queue.slots.len(),
            slots@.map_values(|s: PremiumSlot| s@) == queue.slots@.map_values(|s: PremiumSlot| s@).take(k as int),
        decreases queue.slots.len() - k,
    {
        let ghost before = slots@;
        slots.push(queue.slots[k].copy());
        assert(slots@.map_values(|s: PremiumSlot| s@) =~= before.map_values(|s: PremiumSlot| s@).push(queue.slots@[k as int]@));
        assert(queue.slots@.map_values(|s: PremiumSlot| s@).take(k + 1) =~= queue.slots@.map_values(|s: PremiumSlot| s@).take(k as int).push(queue.slots@[k as int]@));
        k = k + 1;
    }
    assert(queue.slots@.map_values(|s: PremiumSlot| s@).take(queue.slots.len() as int) =~= queue.slots@.map_values(|s: PremiumSlot| s@));
    let new_slots = store_slot(slots, s2);
    let q2 = Queue {
        bid_asset: crate::liq_queue::types::Asset { info: queue.bid_asset.info.copy(), amount },
        max_premium: queue.max_premium,
        slots: new_slots,
        current_bid_id: queue.current_bid_id,
        bid_threshold: queue.bid_threshold,
    };
    Ok((q2, refund))
}

} // verus!
