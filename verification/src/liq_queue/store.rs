//! Finding and replacing slots in a queue and bids in a slot.
//!
//! A slot is found by its premium; replacing a slot drops every slot at
//! that premium and appends the new one, so an edited slot moves to the end.
//! Bids are handled the same way by their id.
use vstd::prelude::*;
use crate::decimal256::Decimal256;
use crate::liq_queue::types::{Bid, PremiumSlot, SlotView, Queue, LiqQueueError};

verus! {

/// The atomics of the premium `p` percent.
pub open spec fn premium_atomics(p: nat) -> nat {
    p * 10_000_000_000_000_000nat
}

/// The index of the first slot at premium `p` percent, if any.
pub open spec fn slot_index(slots: Seq<SlotView>, p: nat) -> Option<int>
    decreases slots.len(),
{
    if slots.len() == 0 {
        None
    } else if let Some(i) = slot_index(slots.drop_last(), p) {
        Some(i)
    } else if slots.last().liq_premium == premium_atomics(p) {
        Some(slots.len() - 1)
    } else {
        None
    }
}

pub proof fn lemma_slot_index(slots: Seq<SlotView>, p: nat)
    ensures
        slot_index(slots, p) matches Some(i) ==> {
            &&& 0 <= i < slots.len()
            &&& slots[i].liq_premium == premium_atomics(p)
            &&& forall|j: int| 0 <= j < i ==> slots[j].liq_premium != premium_atomics(p)
        },
        slot_index(slots, p) is None ==> forall|j: int| 0 <= j < slots.len() ==> slots[j].liq_premium != premium_atomics(p),
    decreases slots.len(),
{
    if slots.len() > 0 {
        lemma_slot_index(slots.drop_last(), p);
        assert(slots.last() == slots[slots.len() - 1]);
        if slot_index(slots, p) is None {
            assert forall|j: int| 0 <= j < slots.len() implies slots[j].liq_premium != premium_atomics(p) by {
                if j < slots.len() - 1 {
                    assert(slots.drop_last()[j] == slots[j]);
                }
            }
        }
        if let Some(i) = slot_index(slots, p) {
            assert forall|j: int| 0 <= j < i implies slots[j].liq_premium != premium_atomics(p) by {
                assert(slots.drop_last()[j] == slots[j]);
            }
        }
    }
}

pub proof fn lemma_slot_index_prefix(slots: Seq<SlotView>, premium: nat, i: int)
    requires
        0 <= i < slots.len(),
        slot_index(slots.take(i), premium) is None,
        slots[i].liq_premium == premium_atomics(premium),
    ensures
        slot_index(slots, premium) == Some(i),
    decreases slots.len(),
{
    if i < slots.len() - 1 {
        assert(slots.drop_last().take(i) =~= slots.take(i));
        lemma_slot_index_prefix(slots.drop_last(), premium, i);
        assert(slots.drop_last()[i] == slots[i]);
    } else {
        assert(slots.drop_last() =~= slots.take(i));
    }
}

/// The slots with `new` in place of every slot at its premium, `new` last.
pub open spec fn replace_slot(slots: Seq<SlotView>, new: SlotView) -> Seq<SlotView> {
    slots.filter(|s: SlotView| s.liq_premium != new.liq_premium).push(new)
}

/// The bids with `new` in place of every bid with its id, `new` last.
pub open spec fn replace_bid(bids: Seq<Bid>, new: Bid) -> Seq<Bid> {
    bids.filter(|b: Bid| b.id != new.id).push(new)
}

/// The bids without those of id `id`.
pub open spec fn without_bid(bids: Seq<Bid>, id: u128) -> Seq<Bid> {
    bids.filter(|b: Bid| b.id != id)
}

/// The index of the first slot at premium `p` percent.
pub fn find_slot(slots: &Vec<PremiumSlot>, p: u8) -> (r: Option<usize>)
    ensures
        r matches Some(i) ==> slot_index(slots@.map_values(|s: PremiumSlot| s@), p as nat) == Some(i as int),
        r is None ==> slot_index(slots@.map_values(|s: PremiumSlot| s@), p as nat) is None,
{
    let ghost views = slots@.map_values(|s: PremiumSlot| s@);
    proof {
        lemma_slot_index(views, p as nat);
    }
    let target = Decimal256::percent(p as u64);
    let mut i: usize = 0;
    while i < slots.len()
        invariant
            i <= slots.len(),
            views == slots@.map_values(|s: PremiumSlot| s@),
            target.v() == premium_atomics(p as nat),
            forall|j: int| 0 <= j < i ==> views[j].liq_premium != premium_atomics(p as nat),
            slot_index(views, p as nat) matches Some(k) ==> {
                &&& 0 <= k < views.len()
                &&& views[k].liq_premium == premium_atomics(p as nat)
                &&& forall|j: int| 0 <= j < k ==> views[j].liq_premium != premium_atomics(p as nat)
            },
            slot_index(views, p as nat) is None ==> forall|j: int| 0 <= j < views.len() ==> views[j].liq_premium != premium_atomics(p as nat),
        decreases slots.len() - i,
    {
        if slots[i].liq_premium.eq(&target) {
            assert(views[i as int] == slots@[i as int]@);
            return Some(i);
        }
        assert(views[i as int] == slots@[i as int]@);
        i = i + 1;
    }
    None
}

/// The slot of `queue` at `premium` percent.
pub fn read_premium_slot(queue: &Queue, premium: u8) -> (r: Result<PremiumSlot, LiqQueueError>)
    ensures
        match slot_index(queue@.slots, premium as nat) {
            None => r == Err::<PremiumSlot, LiqQueueError>(LiqQueueError::InvalidPremium),
            Some(i) => r matches Ok(s) && s@ == queue@.slots[i],
        },
{
    match find_slot(&queue.slots, premium) {
        Some(i) => {
            proof {
                lemma_slot_index(queue@.slots, premium as nat);
            }
            Ok(queue.slots[i].copy())
        },
        None => Err(LiqQueueError::InvalidPremium),
    }
}

/// A new list of slots: `slots` with `new` in place of those at its premium, `new` last.
pub fn store_slot(slots: Vec<PremiumSlot>, new: PremiumSlot) -> (r: Vec<PremiumSlot>)
    ensures
        r@.map_values(|s: PremiumSlot| s@) == replace_slot(slots@.map_values(|s: PremiumSlot| s@), new@),
{
    let ghost views = slots@.map_values(|s: PremiumSlot| s@);
    let ghost pred = |s: SlotView| s.liq_premium != new@.liq_premium;
    let mut r: Vec<PremiumSlot> = Vec::new();
    let mut i: usize = 0;
    while i < slots.len()
        invariant
            i <= slots.len(),
            views == slots@.map_values(|s: PremiumSlot| s@),
            pred == (|s: SlotView| s.liq_premium != new@.liq_premium),
            r@.map_values(|s: PremiumSlot| s@) == views.take(i as int).filter(pred),
        decreases slots.len() - i,
    {
        let ghost before = r@;
        proof {
            assert(views.take(i + 1) =~= views.take(i as int).push(views[i as int]));
            views.take(i as int).lemma_filter_push(views[i as int], pred);
        }
        if !slots[i].liq_premium.eq(&new.liq_premium) {
            r.push(slots[i].copy());
            assert(r@.map_values(|s: PremiumSlot| s@) =~= before.map_values(|s: PremiumSlot| s@).push(views[i as int]));
        }
        i = i + 1;
    }
    assert(views.take(slots.len() as int) =~= views);
    let ghost before = r@;
    r.push(new);
    assert(r@.map_values(|s: PremiumSlot| s@) =~= before.map_values(|s: PremiumSlot| s@).push(new@));
    r
}

/// Copies of the bids whose id is not `id`, in order.
pub fn remove_bid_id(bids: &Vec<Bid>, id: u128) -> (r: Vec<Bid>)
    ensures
        r@ == without_bid(bids@, id),
{
    let ghost pred = |b: Bid| b.id != id;
    let mut r: Vec<Bid> = Vec::new();
    let mut i: usize = 0;
    while i < bids.len()
        invariant
            i <= bids.len(),
            pred == (|b: Bid| b.id != id),
            r@ == bids@.take(i as int).filter(pred),
        decreases bids.len() - i,
    {
        proof {
            assert(bids@.take(i + 1) =~= bids@.take(i as int).push(bids@[i as int]));
            bids@.take(i as int).lemma_filter_push(bids@[i as int], pred);
        }
        if bids[i].id != id {
            r.push(bids[i].copy());
        }
        i = i + 1;
    }
    assert(bids@.take(bids.len() as int) =~= bids@);
    r
}

/// The first bid with id `id`, if any.
pub open spec fn find_bid_spec(bids: Seq<Bid>, id: u128) -> Option<Bid>
    decreases bids.len(),
{
    if bids.len() == 0 {
        None
    } else if let Some(b) = find_bid_spec(bids.drop_last(), id) {
        Some(b)
    } else if bids.last().id == id {
        Some(bids.last())
    } else {
        None
    }
}

pub proof fn lemma_find_bid(bids: Seq<Bid>, id: u128)
    ensures
        find_bid_spec(bids, id) matches Some(b) ==> b.id == id && bids.contains(b),
        find_bid_spec(bids, id) is None ==> forall|j: int| 0 <= j < bids.len() ==> bids[j].id != id,
    decreases bids.len(),
{
    if bids.len() > 0 {
        lemma_find_bid(bids.drop_last(), id);
        assert(bids.last() == bids[bids.len() - 1]);
        if find_bid_spec(bids, id) is None {
            assert forall|j: int| 0 <= j < bids.len() implies bids[j].id != id by {
                if j < bids.len() - 1 {
                    assert(bids.drop_last()[j] == bids[j]);
                }
            }
        }
        if let Some(b) = find_bid_spec(bids.drop_last(), id) {
            assert(bids.drop_last().contains(b));
            let k = choose|k: int| 0 <= k < bids.drop_last().len() && bids.drop_last()[k] == b;
            assert(bids[k] == b);
        } else if bids.last().id == id {
            assert(bids[bids.len() - 1] == bids.last());
        }
    }
}

/// A copy of the first bid with id `id`, if any.
pub fn find_bid(bids: &Vec<Bid>, id: u128) -> (r: Option<Bid>)
    ensures
        r == find_bid_spec(bids@, id),
{
    let mut i: usize = 0;
    while i < bids.len()
        invariant
            i <= bids.len(),
            find_bid_spec(bids@.take(i as int), id) is None,
        decreases bids.len() - i,
    {
        assert(bids@.take(i + 1).drop_last() =~= bids@.take(i as int));
        if bids[i].id == id {
            proof {
                lemma_find_prefix(bids@, id, i as int);
            }
            return Some(bids[i].copy());
        }
        i = i + 1;
    }
    assert(bids@.take(bids.len() as int) =~= bids@);
    None
}

/// If no bid before `i` has the id and bid `i` does, it is the first.
pub proof fn lemma_find_prefix(bids: Seq<Bid>, id: u128, i: int)
    requires
        0 <= i < bids.len(),
        find_bid_spec(bids.take(i), id) is None,
        bids[i].id == id,
    ensures
        find_bid_spec(bids, id) == Some(bids[i]),
    decreases bids.len(),
{
    if i < bids.len() - 1 {
        assert(bids.drop_last().take(i) =~= bids.take(i));
        lemma_find_prefix(bids.drop_last(), id, i);
        assert(bids.drop_last()[i] == bids[i]);
    } else {
        assert(bids.drop_last() =~= bids.take(i));
    }
}

} // verus!
