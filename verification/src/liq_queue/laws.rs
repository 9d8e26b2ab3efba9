//! What holds of bids placed in the liquidation queue.
use vstd::prelude::*;
use crate::liq_queue::bidding::{split_bid, placement_outcome};
use crate::liq_queue::store::{slot_index, lemma_slot_index, replace_slot, premium_atomics};
use crate::liq_queue::liquidation::{LiqRun, liquidation_step, liquidation_run};
use crate::math::fraction;
use crate::liq_queue::query::liquidatible;
use crate::liq_queue::distribution::pool_amounts;
use crate::liq_queue::arith::pow10;
use crate::liq_queue::types::{Bid, LiqQueueError, SlotView, QueueView, PriceResponse256};
use crate::liq_queue::sums::ScaleSums;
use crate::liq_queue::queue_ops::{claim_all, lemma_claim_stuck};

verus! {

/// A bid is split, not lost: its active and waiting parts add up to it;
/// nothing activates in a slot already past the threshold; and where the
/// bid is split in two, the active part fills the slot exactly up to the
/// threshold.
pub proof fn law_bid_split_conserves(total: nat, amount: nat, threshold: nat, minimum: nat)
    ensures
        ({
            let (active, waiting, ids) = split_bid(total, amount, threshold, minimum);
            &&& active + waiting == amount
            &&& total > threshold ==> active == 0 && waiting == amount
            &&& ids == 2 ==> total + active == threshold
            &&& ids == 1 || ids == 2
        }),
{
}

/// Nobody claims another user's collateral: a claim of bids among which one
/// belongs to someone other than the sender fails, and where the bids
/// before it were claimable, it fails as unauthorized.
pub proof fn law_foreign_bid_refused(slots: Seq<SlotView>, bids: Seq<Bid>, k: int, sums: ScaleSums, bid_for: Seq<char>,
    sender: Seq<char>, now: u64)
    requires
        0 <= k < bids.len(),
        bids[k].user@ != sender,
    ensures
        claim_all(slots, bids, sums, bid_for, sender, now) is Err,
        claim_all(slots, bids.take(k), sums, bid_for, sender, now) is Ok
            ==> claim_all(slots, bids, sums, bid_for, sender, now) == Err::<(Seq<SlotView>, nat), LiqQueueError>(
                LiqQueueError::Unauthorized),
{
    let first = bids.take(k + 1);
    assert(first.drop_last() =~= bids.take(k));
    assert(first.last() == bids[k]);
    assert(claim_all(slots, first, sums, bid_for, sender, now) is Err);
    lemma_claim_stuck(slots, bids, k + 1, sums, bid_for, sender, now);
}

/// The bids a placement added to slot `s`, giving `s2`: the new active bid,
/// then the new waiting bid, where there are such.
pub open spec fn added_bids(s: SlotView, s2: SlotView) -> Seq<Bid> {
    (if s2.bids.len() > s.bids.len() { seq![s2.bids.last()] } else { Seq::empty() })
        + (if s2.waiting_bids.len() > s.waiting_bids.len() { seq![s2.waiting_bids.last()] } else { Seq::empty() })
}

/// The sum of the bids' amounts.
pub open spec fn amounts(bids: Seq<Bid>) -> nat
    decreases bids.len(),
{
    if bids.len() == 0 { 0 } else { amounts(bids.drop_last()) + bids.last().amount.value() }
}

/// The amounts of the active ones among the bids.
pub open spec fn active_amounts(bids: Seq<Bid>) -> nat
    decreases bids.len(),
{
    if bids.len() == 0 {
        0
    } else {
        active_amounts(bids.drop_last()) + if bids.last().wait_end is None { bids.last().amount.value() } else { 0 }
    }
}

/// A placed bid is found whole in its slot: the bids it adds belong to the
/// user at the premium and sum to its amount; they take consecutive ids from
/// the queue's next id, which moves past them; the active ones (no wait
/// end) add to the slot's total and to the queue's bid asset amount, the
/// waiting ones wait until `wait_end`; and the other slots are kept.
/// (With a minimum bid of zero, a bid of zero adds nothing and still uses
/// an id: the minimum here is positive.)
pub proof fn law_placed_bid_sums(q: QueueView, user: Seq<char>, premium: u8, amount: nat, minimum: nat,
    wait_end: Option<u64>, maximum_waiting_bids: u64, q2: QueueView)
    requires
        0 < minimum <= amount,
        placement_outcome(q, user, premium, amount, minimum, wait_end, maximum_waiting_bids, Ok(q2)),
    ensures
        ({
            let s = q.slots[slot_index(q.slots, premium as nat)->0];
            let s2 = q2.slots.last();
            let added = added_bids(s, s2);
            &&& amounts(added) == amount
            &&& 1 <= added.len() <= 2
            &&& forall|k: int| 0 <= k < added.len() ==> (#[trigger] added[k]).id == q.current_bid_id + k
                && added[k].user@ == user && added[k].liq_premium == premium
                && (added[k].wait_end is None || added[k].wait_end == wait_end)
            &&& q2.current_bid_id == q.current_bid_id + added.len()
            &&& s2.total_bid_amount == s.total_bid_amount + active_amounts(added)
            &&& q2.bid_asset_amount == q.bid_asset_amount + active_amounts(added)
            &&& s2.liq_premium == s.liq_premium
            &&& q2.slots == q.slots.filter(|x: SlotView| x.liq_premium != s2.liq_premium).push(s2)
        }),
{
    let i = slot_index(q.slots, premium as nat)->0;
    let s = q.slots[i];
    let s2 = q2.slots.last();
    let added = added_bids(s, s2);
    let (active, waiting, ids) = split_bid(s.total_bid_amount, amount, q.bid_threshold, minimum);
    reveal_with_fuel(amounts, 3);
    reveal_with_fuel(active_amounts, 3);
    if s.total_bid_amount <= q.bid_threshold {
        if waiting != 0 {
            assert(added =~= seq![s2.bids.last(), s2.waiting_bids.last()]);
            assert(added.drop_last() =~= seq![s2.bids.last()]);
            assert(added.drop_last().drop_last() =~= Seq::<Bid>::empty());
        } else {
            assert(added =~= seq![s2.bids.last()]);
            assert(added.drop_last() =~= Seq::<Bid>::empty());
        }
    } else {
        assert(added =~= seq![s2.waiting_bids.last()]);
        assert(added.drop_last() =~= Seq::<Bid>::empty());
    }
}

/// A liquidation stops at the first slot that covers all the collateral:
/// the run over premiums `p ..` ends with the state after premium `p`, in
/// which only the slot at that premium changed, so every slot of a higher
/// premium keeps its bids and totals.
pub proof fn law_liquidation_stops_when_covered(st: LiqRun, p: nat, end: nat, bid_for: String, threshold: nat,
    waiting_period: u64, now: u64, price: PriceResponse256, credit_price: PriceResponse256)
    requires
        p < end,
        !st.filled,
        liquidation_step(st, p, bid_for, threshold, waiting_period, now, price, credit_price) matches Some(next)
            && next.filled,
    ensures
        ({
            let next = liquidation_step(st, p, bid_for, threshold, waiting_period, now, price, credit_price)->0;
            &&& liquidation_run(st, p, end, bid_for, threshold, waiting_period, now, price, credit_price) == Some(next)
            &&& next.remaining == 0
            &&& next.slots.last().liq_premium == premium_atomics(p % 256)
            &&& next.slots == replace_slot(st.slots, next.slots.last())
        }),
{
    let next = liquidation_step(st, p, bid_for, threshold, waiting_period, now, price, credit_price)->0;
    assert(liquidation_run(next, p + 1, end, bid_for, threshold, waiting_period, now, price, credit_price) == Some(next));
    lemma_slot_index(st.slots, p % 256);
}

/// `a / b`, rounded down, times `b` is at most `a`, by less than `b`.
pub proof fn lemma_floor(a: nat, b: nat)
    requires
        b > 0,
    ensures
        (a / b) * b <= a,
        a < (a / b) * b + b,
{
    vstd::arithmetic::div_mod::lemma_fundamental_div_mod(a as int, b as int);
    assert((a / b) * b == b * (a / b)) by (nonlinear_arith);
}

/// A slot with bids to spare repays what the collateral is worth at the
/// slot's discount, in the credit token: with `F = 10^18`, the discount
/// `d = F - premium` and the prices as decimals, the debt repaid `r` for
/// `rem` collateral has `r * credit_price * F <= rem * price * d <
/// (r + 1) * credit_price * F + rem * (credit_price + F)`; the collateral is
/// all absorbed. Any slot repays at most its bids.
pub proof fn law_liquidatible_repays_value(s: SlotView, rem: nat, price: nat, credit_price: nat)
    requires
        s.total_bid_amount > 0,
        rem > 0,
        liquidatible(seq![s], rem, 0, price, credit_price) is Some,
    ensures
        ({
            let (left, repaid) = liquidatible(seq![s], rem, 0, price, credit_price)->0;
            let d = (fraction() - s.liq_premium) as nat;
            &&& repaid <= s.total_bid_amount
            &&& repaid < s.total_bid_amount ==> {
                &&& left == 0
                &&& repaid * credit_price * fraction() <= rem * price * d
                &&& rem * price * d < (repaid + 1) * credit_price * fraction() + rem * (credit_price + fraction())
            }
        }),
{
    let f = fraction();
    assert(seq![s].drop_last() =~= Seq::<SlotView>::empty());
    assert(seq![s].last() == s);
    reveal_with_fuel(liquidatible, 2);
    assert(liquidatible(Seq::<SlotView>::empty(), rem, 0, price, credit_price) == Some((rem, 0nat)));
    let (left, repaid) = liquidatible(seq![s], rem, 0, price, credit_price)->0;
    let d = (f - s.liq_premium) as nat;
    let pp = (price * d) / f;
    let ratio = (pp * f) / credit_price;
    let req = (rem * ratio) / f;
    if repaid < s.total_bid_amount {
        assert(credit_price > 0);
        assert(repaid == req);
        lemma_floor(price * d, f);
        lemma_floor(pp * f, credit_price);
        lemma_floor(rem * ratio, f);
        let cp = credit_price;
        // Upper bound.
        assert(req * f * cp <= rem * ratio * cp) by (nonlinear_arith)
            requires req * f <= rem * ratio;
        assert(rem * ratio * cp <= rem * (pp * f)) by (nonlinear_arith)
            requires ratio * cp <= pp * f;
        assert(req * cp <= rem * pp) by (nonlinear_arith)
            requires req * f * cp <= rem * ratio * cp, rem * ratio * cp <= rem * (pp * f), f > 0;
        assert(req * cp * f <= rem * pp * f) by (nonlinear_arith)
            requires req * cp <= rem * pp;
        assert(rem * pp * f <= rem * (price * d)) by (nonlinear_arith)
            requires pp * f <= price * d;
        assert(rem * (price * d) == rem * price * d) by (nonlinear_arith);
        // Lower bound.
        assert(rem * (price * d) < rem * (pp * f) + rem * f) by (nonlinear_arith)
            requires price * d < pp * f + f, rem > 0;
        assert(rem * (pp * f) < rem * ratio * cp + rem * cp) by (nonlinear_arith)
            requires pp * f < ratio * cp + cp, rem > 0;
        assert(rem * ratio * cp < (req + 1) * cp * f) by (nonlinear_arith)
            requires rem * ratio < req * f + f, cp > 0;
        assert(rem * (cp + f) == rem * cp + rem * f) by (nonlinear_arith);
        assert(req * cp * f == repaid * credit_price * fraction());
    }
}

/// A slot repays at most what the collateral is worth at its discount, in
/// the credit token's atomic units: with `F = 10^18`, `d = F - premium`,
/// the collateral's `10^price_decimals` as `P` and the credit token's
/// `10^credit_decimals` as `C`, the repaid `r` for `collateral` atomic
/// units has `r * credit_price * P * F <= C * collateral * price * d`.
/// Where the slot covers all of the collateral, `r` falls short of that
/// value by no more than the rounding of each step:
/// `C * collateral * price * d * F <= ((r + 1) * F * credit_price * P
/// + C * credit_price * P + C * F * P + C * collateral * F) * F
/// + C * P * price * d`.
pub proof fn law_slot_repays_collateral_value(total: nat, premium: nat, collateral: nat, price: nat,
    price_decimals: u64, credit_price: nat, credit_decimals: u64)
    requires
        pool_amounts(total, premium, collateral, price, price_decimals, credit_price, credit_decimals) is Some,
    ensures
        ({
            let (r, taken, filled) = pool_amounts(total, premium, collateral, price, price_decimals, credit_price,
                credit_decimals)->0;
            let f = fraction();
            let d = (f - premium) as nat;
            let p = pow10(price_decimals as nat);
            let c = pow10(credit_decimals as nat);
            &&& r * credit_price * p * f <= c * collateral * price * d
            &&& filled ==> c * collateral * price * d * f <= ((r + 1) * f * credit_price * p + c * credit_price * p
                + c * f * p + c * collateral * f) * f + c * p * price * d
        }),
{
    let f = fraction();
    let d = (f - premium) as nat;
    let p = pow10(price_decimals as nat);
    let c = pow10(credit_decimals as nat);
    let cp = credit_price;
    let col = collateral;
    let (r, taken, filled) = pool_amounts(total, premium, collateral, price, price_decimals, credit_price,
        credit_decimals)->0;
    let pp = (price * d) / f;
    let ratio = (col * f) / p;
    let value = (ratio * pp) / f;
    let units = (value * f) / cp;
    let req = (c * units) / f;
    assert(p > 0 && cp > 0);
    lemma_floor(price * d, f);
    lemma_floor(col * f, p);
    lemma_floor(ratio * pp, f);
    lemma_floor(value * f, cp);
    lemma_floor(c * units, f);
    assert(r <= req);
    // Upper bound.
    assert(req * cp <= c * value) by (nonlinear_arith)
        requires req * f <= c * units, units * cp <= value * f, f > 0;
    assert(req * cp * f <= c * (ratio * pp)) by (nonlinear_arith)
        requires req * cp <= c * value, value * f <= ratio * pp;
    assert(req * cp * p <= c * col * pp) by (nonlinear_arith)
        requires req * cp * f <= c * (ratio * pp), ratio * p <= col * f, f > 0;
    assert(req * cp * p * f <= c * col * price * d) by (nonlinear_arith)
        requires req * cp * p <= c * col * pp, pp * f <= price * d;
    assert(r * cp * p * f <= req * cp * p * f) by (nonlinear_arith)
        requires r <= req;
    if filled {
        assert(r == req);
        // Lower bound, step by step from the collateral's value.
        assert(c * col * (price * d) <= c * col * (pp * f + f)) by (nonlinear_arith)
            requires price * d < pp * f + f;
        assert(c * (col * f) * pp <= c * (ratio * p + p) * pp) by (nonlinear_arith)
            requires col * f < ratio * p + p;
        assert(c * (ratio * pp) * p <= c * (value * f + f) * p) by (nonlinear_arith)
            requires ratio * pp < value * f + f;
        assert(c * (value * f) * p <= c * (units * cp + cp) * p) by (nonlinear_arith)
            requires value * f < units * cp + cp;
        assert((c * units) * cp * p <= (req * f + f) * cp * p) by (nonlinear_arith)
            requires c * units < req * f + f;
        assert(c * p * pp * f <= c * p * (price * d)) by (nonlinear_arith)
            requires pp * f <= price * d;
        let a = c * col * (price * d);
        let b = c * (col * f) * pp;
        let cc = c * (ratio * pp) * p;
        let dd = c * (value * f) * p;
        let e = (c * units) * cp * p;
        assert(c * col * (pp * f + f) == b + c * col * f) by (nonlinear_arith)
            requires b == c * (col * f) * pp;
        assert(c * (ratio * p + p) * pp == cc + c * p * pp) by (nonlinear_arith)
            requires cc == c * (ratio * pp) * p;
        assert(c * (value * f + f) * p == dd + c * f * p) by (nonlinear_arith)
            requires dd == c * (value * f) * p;
        assert(c * (units * cp + cp) * p == e + c * cp * p) by (nonlinear_arith)
            requires e == (c * units) * cp * p;
        assert((req * f + f) * cp * p == (r + 1) * f * cp * p) by (nonlinear_arith)
            requires r == req;
        let rest = (r + 1) * f * cp * p + c * cp * p + c * f * p + c * col * f;
        assert(a <= rest + c * p * pp);
        assert(a * f <= (rest + c * p * pp) * f) by (nonlinear_arith)
            requires a <= rest + c * p * pp;
        assert((rest + c * p * pp) * f == rest * f + c * p * pp * f) by (nonlinear_arith);
        assert(a * f == c * col * price * d * f) by (nonlinear_arith)
            requires a == c * col * (price * d);
        assert(c * p * (price * d) == c * p * price * d) by (nonlinear_arith);
    }
}

/// The collateral's decimals do not change what a slot repays: the same
/// value written with one more decimal (ten times the atomic units) repays
/// the same debt, and covers it alike.
pub proof fn law_repay_ignores_collateral_decimals(total: nat, premium: nat, collateral: nat, price: nat,
    price_decimals: u64, credit_price: nat, credit_decimals: u64)
    requires
        price_decimals < u64::MAX,
        pool_amounts(total, premium, collateral, price, price_decimals, credit_price, credit_decimals) is Some,
        pool_amounts(total, premium, collateral * 10, price, (price_decimals + 1) as u64, credit_price,
            credit_decimals) is Some,
    ensures
        ({
            let one = pool_amounts(total, premium, collateral, price, price_decimals, credit_price, credit_decimals)->0;
            let ten = pool_amounts(total, premium, collateral * 10, price, (price_decimals + 1) as u64, credit_price,
                credit_decimals)->0;
            one.0 == ten.0 && one.2 == ten.2
        }),
{
    let f = fraction();
    let p = pow10(price_decimals as nat);
    assert(pow10((price_decimals + 1) as nat) == 10 * p);
    assert(p > 0);
    vstd::arithmetic::div_mod::lemma_div_multiples_vanish_quotient(10, (collateral * f) as int, p as int);
    assert(collateral * 10 * f == 10 * (collateral * f)) by (nonlinear_arith);
    assert((collateral * 10 * f) / (10 * p) == (collateral * f) / p);
}

} // verus!
