//! Queries of the liquidation queue.
use vstd::prelude::*;
use crate::math::{Uint256, fraction, u256_limit};
use crate::decimal256::Decimal256;
use crate::liq_queue::arith::{o_sub, o_dmul, o_ddiv, o_dmul_int, o_int_ddiv};
use crate::liq_queue::types::{Asset, AssetInfo, Bid, PremiumSlot, SlotView, Queue, QueueView, LiqQueueError};
use crate::liq_queue::store::{find_slot, slot_index, lemma_slot_index, lemma_slot_index_prefix};
use crate::liq_queue::queue_ops::{read_bid, read_bid_spec, read_bids_by_user, user_bids, limited};
use crate::liq_queue::withdraw::{standing, bid_standing};
use crate::liq_queue::contract::{LiquidationQueue, find_queue, queue_index, lemma_queue_index};

verus! {

/// A bid as reported: for an active bid, its remaining amount and its
/// pending plus newly liquidated collateral.
pub struct BidResponse {
    pub user: String,
    pub id: u128,
    pub amount: Uint256,
    pub liq_premium: u8,
    pub pending_liquidated_collateral: Uint256,
    pub product_snapshot: Decimal256,
    pub sum_snapshot: Decimal256,
    pub wait_end: Option<u64>,
    pub epoch_snapshot: u128,
    pub scale_snapshot: u128,
}

/// How much of a collateral amount the queue can absorb.
pub struct LiquidatibleResponse {
    pub leftover_collateral: Uint256,
    pub total_debt_repaid: Uint256,
}

/// The standing of bid `b` in queue `q` as reported: its amount and pending
/// collateral.
pub open spec fn bid_report(q: QueueView, sums: crate::liq_queue::sums::ScaleSums, bid_for: Seq<char>, b: Bid) -> Result<(nat, nat), LiqQueueError> {
    match slot_index(q.slots, b.liq_premium as nat) {
        None => Err(LiqQueueError::InvalidPremium),
        Some(i) => if b.wait_end is Some {
            Ok((b.amount.value(), b.pending_liquidated_collateral.value()))
        } else {
            let s = q.slots[i];
            if s.current_scale < b.scale_snapshot || s.current_epoch < b.epoch_snapshot {
                Err(LiqQueueError::SnapshotAhead)
            } else {
                match bid_standing(sums, b, s, bid_for) {
                    None => Err(LiqQueueError::MathError),
                    Some((rem, rb, liq, rc)) => if b.pending_liquidated_collateral.value() + liq >= u256_limit() {
                        Err(LiqQueueError::MathError)
                    } else {
                        Ok((rem, b.pending_liquidated_collateral.value() + liq))
                    },
                }
            }
        },
    }
}

/// The reports of `bids` in order, or the error of the first that cannot
/// be reported.
pub open spec fn bid_reports(q: QueueView, sums: crate::liq_queue::sums::ScaleSums, bid_for: Seq<char>, bids: Seq<Bid>) -> Result<Seq<(nat, nat)>, LiqQueueError>
    decreases bids.len(),
{
    if bids.len() == 0 {
        Ok(Seq::empty())
    } else {
        match bid_reports(q, sums, bid_for, bids.drop_last()) {
            Err(e) => Err(e),
            Ok(rs) => match bid_report(q, sums, bid_for, bids.last()) {
                Err(e) => Err(e),
                Ok(p) => Ok(rs.push(p)),
            },
        }
    }
}

/// `out` answers `bids` one for one with the reports `rs`.
pub open spec fn reported(out: Seq<BidResponse>, bids: Seq<Bid>, rs: Seq<(nat, nat)>) -> bool {
    &&& out.len() == bids.len()
    &&& rs.len() == bids.len()
    &&& forall|j: int| 0 <= j < out.len() ==> #[trigger] out[j].id == bids[j].id
        && out[j].user == bids[j].user
        && rs[j] == (out[j].amount.value(), out[j].pending_liquidated_collateral.value())
}

/// The sum of the pending collateral of the reports `rs`.
pub open spec fn pending_total(rs: Seq<(nat, nat)>) -> nat
    decreases rs.len(),
{
    if rs.len() == 0 {
        0
    } else {
        pending_total(rs.drop_last()) + rs.last().1
    }
}

proof fn lemma_pending_total_prefix(rs: Seq<(nat, nat)>, k: int)
    requires
        0 <= k <= rs.len(),
    ensures
        pending_total(rs.take(k)) <= pending_total(rs),
    decreases rs.len(),
{
    if k < rs.len() {
        assert(rs.drop_last().take(k) =~= rs.take(k));
        lemma_pending_total_prefix(rs.drop_last(), k);
    } else {
        assert(rs.take(k) =~= rs);
    }
}

/// The amounts and pending collateral of the responses `v`.
pub open spec fn response_pairs(v: Seq<BidResponse>) -> Seq<(nat, nat)> {
    v.map_values(|b: BidResponse| (b.amount.value(), b.pending_liquidated_collateral.value()))
}

/// The sum of the pending collateral of `v`, if it fits in 256 bits.
fn total_pending(v: &Vec<BidResponse>) -> (r: Option<Uint256>)
    ensures
        match r {
            Some(t) => t.value() == pending_total(response_pairs(v@)),
            None => pending_total(response_pairs(v@)) >= u256_limit(),
        },
{
    let ghost rs = response_pairs(v@);
    let mut total = Uint256::zero();
    let mut j: usize = 0;
    while j < v.len()
        invariant
            j <= v.len(),
            rs == response_pairs(v@),
            total.value() == pending_total(rs.take(j as int)),
        decreases v.len() - j,
    {
        assert(rs.take(j + 1).drop_last() =~= rs.take(j as int));
        total = match total.checked_add(v[j].pending_liquidated_collateral) {
            Some(t) => t,
            None => {
                proof { lemma_pending_total_prefix(rs, j as int + 1); }
                return None;
            },
        };
        j = j + 1;
    }
    assert(rs.take(v.len() as int) =~= rs);
    Some(total)
}

proof fn lemma_reports_stuck(q: QueueView, sums: crate::liq_queue::sums::ScaleSums, bid_for: Seq<char>, bids: Seq<Bid>, k: int)
    requires
        0 <= k <= bids.len(),
        bid_reports(q, sums, bid_for, bids.take(k)) is Err,
    ensures
        bid_reports(q, sums, bid_for, bids) == bid_reports(q, sums, bid_for, bids.take(k)),
    decreases bids.len(),
{
    if k < bids.len() {
        assert(bids.drop_last().take(k) =~= bids.take(k));
        lemma_reports_stuck(q, sums, bid_for, bids.drop_last(), k);
    } else {
        assert(bids.take(k) =~= bids);
    }
}

impl LiquidationQueue {
    /// Bid `bid_id` on collateral `bid_for`, as reported (see `bid_report`).
    pub fn query_bid(&self, bid_for: &AssetInfo, bid_id: u128) -> (r: Result<BidResponse, LiqQueueError>)
        ensures
            match queue_index(self.queues@, bid_for.key()) {
                None => r == Err::<BidResponse, LiqQueueError>(LiqQueueError::QueueNotFound),
                Some(i) => match read_bid_spec(self.queues@[i].queue@, bid_id) {
                    Err(e) => r == Err::<BidResponse, LiqQueueError>(e),
                    Ok(b) => match bid_report(self.queues@[i].queue@, self.sums, bid_for.key(), b) {
                        Err(e) => r == Err::<BidResponse, LiqQueueError>(e),
                        Ok((amount, pending)) => r matches Ok(resp) && {
                            &&& resp.user == b.user
                            &&& resp.id == b.id
                            &&& resp.amount.value() == amount
                            &&& resp.liq_premium == b.liq_premium
                            &&& resp.pending_liquidated_collateral.value() == pending
                            &&& resp.product_snapshot == b.product_snapshot
                            &&& resp.sum_snapshot == b.sum_snapshot
                            &&& resp.wait_end == b.wait_end
                            &&& resp.epoch_snapshot == b.epoch_snapshot
                            &&& resp.scale_snapshot == b.scale_snapshot
                        },
                    },
                },
            },
    {
        let key = bid_for.key_string();
        let i = match find_queue(&self.queues, &key) {
            Some(i) => i,
            None => return Err(LiqQueueError::QueueNotFound),
        };
        proof {
            lemma_queue_index(self.queues@, key@);
        }
        let queue = &self.queues[i].queue;
        let bid = read_bid(queue, bid_id)?;
        bid_response(queue, &self.sums, &key, bid)
    }

    /// The active bids of `user` on collateral `bid_for` (at most `limit`,
    /// ids above `start_after`), as reported; the first bid that cannot be
    /// reported makes the whole answer that error.
    pub fn query_bids_by_user(&self, bid_for: &AssetInfo, user: &String, limit: Option<u32>, start_after: Option<u128>) -> (r: Result<Vec<BidResponse>, LiqQueueError>)
        ensures
            match queue_index(self.queues@, bid_for.key()) {
                None => r == Err::<Vec<BidResponse>, LiqQueueError>(LiqQueueError::QueueNotFound),
                Some(i) => {
                    let limit = match limit { Some(l) => l as int, None => 2147483646 };
                    let start = match start_after { Some(s) => s, None => 0 };
                    let q = self.queues@[i].queue@;
                    let bids = limited(user_bids(q.slots, user@, start), limit);
                    match bid_reports(q, self.sums, bid_for.key(), bids) {
                        Err(e) => r == Err::<Vec<BidResponse>, LiqQueueError>(e),
                        Ok(reports) => r matches Ok(v) && reported(v@, bids, reports),
                    }
                },
            },
    {
        let key = bid_for.key_string();
        let i = match find_queue(&self.queues, &key) {
            Some(i) => i,
            None => return Err(LiqQueueError::QueueNotFound),
        };
        proof {
            lemma_queue_index(self.queues@, key@);
        }
        let queue = &self.queues[i].queue;
        let bids = read_bids_by_user(queue, user, limit, start_after);
        let ghost all = bids@;
        let mut out: Vec<BidResponse> = Vec::new();
        let mut k: usize = 0;
        while k < bids.len()
            invariant
                k <= bids.len(),
                all == bids@,
                queue_index(self.queues@, bid_for.key()) == Some(i as int),
                *queue == self.queues@[i as int].queue,
                key@ == bid_for.key(),
                ({
                    let limit = match limit { Some(l) => l as int, None => 2147483646 };
                    let start = match start_after { Some(s) => s, None => 0 };
                    all == limited(user_bids(queue@.slots, user@, start), limit)
                }),
                bid_reports(queue@, self.sums, key@, all.take(k as int)) matches Ok(rs)
                    && reported(out@, all.take(k as int), rs),
            decreases bids.len() - k,
        {
            let ghost before = out@;
            let ghost rs = bid_reports(queue@, self.sums, key@, all.take(k as int))->Ok_0;
            assert(all.take(k + 1).drop_last() =~= all.take(k as int));
            assert(all.take(k + 1).last() == all[k as int]);
            let resp = match bid_response(queue, &self.sums, &key, bids[k].copy()) {
                Ok(resp) => resp,
                Err(e) => {
                    proof { lemma_reports_stuck(queue@, self.sums, key@, all, k as int + 1); }
                    return Err(e);
                },
            };
            let ghost got = resp;
            assert(bid_report(queue@, self.sums, key@, all[k as int]) == Ok::<(nat, nat), LiqQueueError>(
                (got.amount.value(), got.pending_liquidated_collateral.value())));
            assert(got.id == all[k as int].id && got.user == all[k as int].user);
            out.push(resp);
            proof {
                let p = bid_report(queue@, self.sums, key@, all[k as int])->Ok_0;
                assert(bid_reports(queue@, self.sums, key@, all.take(k + 1)) == Ok::<Seq<(nat, nat)>, LiqQueueError>(rs.push(p)));
                assert(out@ =~= before.push(got));
                assert forall|j: int| 0 <= j < k + 1 implies #[trigger] out@[j].id == all.take(k + 1)[j].id
                    && out@[j].user == all.take(k + 1)[j].user
                    && rs.push(p)[j] == (out@[j].amount.value(), out@[j].pending_liquidated_collateral.value()) by {
                    if j < k {
                        assert(out@[j] == before[j]);
                        assert(all.take(k + 1)[j] == all.take(k as int)[j]);
                        assert(before[j].id == all.take(k as int)[j].id);
                        assert(rs.push(p)[j] == rs[j]);
                    } else {
                        assert(out@[j] == got);
                        assert(all.take(k + 1)[j] == all[k as int]);
                        assert(rs.push(p)[j] == p);
                    }
                }
                assert(reported(out@, all.take(k + 1), rs.push(p)));
            }
            k = k + 1;
        }
        assert(all.take(bids.len() as int) =~= all);
        Ok(out)
    }

    /// What the bids of `user` on collateral `bid_for` report (all of them,
    /// from the first id on), or the first error.
    pub open spec fn user_reports(&self, bid_for: AssetInfo, user: Seq<char>) -> Result<Seq<(nat, nat)>, LiqQueueError> {
        match queue_index(self.queues@, bid_for.key()) {
            None => Err(LiqQueueError::QueueNotFound),
            Some(i) => {
                let q = self.queues@[i].queue@;
                bid_reports(q, self.sums, bid_for.key(), limited(user_bids(q.slots, user, 0), 2147483646))
            },
        }
    }

    /// The pending collateral of `user` on each of `assets`, or the first
    /// error (a total that does not fit in 256 bits is a math error).
    pub open spec fn user_claims(&self, assets: Seq<AssetInfo>, user: Seq<char>) -> Result<Seq<nat>, LiqQueueError>
        decreases assets.len(),
    {
        if assets.len() == 0 {
            Ok(Seq::empty())
        } else {
            match self.user_claims(assets.drop_last(), user) {
                Err(e) => Err(e),
                Ok(cs) => match self.user_reports(assets.last(), user) {
                    Err(e) => Err(e),
                    Ok(rs) => if pending_total(rs) >= u256_limit() {
                        Err(LiqQueueError::MathError)
                    } else {
                        Ok(cs.push(pending_total(rs)))
                    },
                },
            }
        }
    }

    /// The pending collateral of `user` on each added asset, in order: the
    /// sum of what their bids report (see `user_claims`).
    pub fn query_user_claims(&self, user: &String) -> (r: Result<Vec<(AssetInfo, Uint256)>, LiqQueueError>)
        ensures
            match self.user_claims(self.config.added_assets@, user@) {
                Err(e) => r == Err::<Vec<(AssetInfo, Uint256)>, LiqQueueError>(e),
                Ok(cs) => r matches Ok(v) && v@.len() == cs.len()
                    && forall|k: int| 0 <= k < cs.len() ==> #[trigger] v@[k].0 == self.config.added_assets@[k]
                        && v@[k].1.value() == cs[k],
            },
    {
        let ghost assets = self.config.added_assets@;
        let mut out: Vec<(AssetInfo, Uint256)> = Vec::new();
        let mut k: usize = 0;
        while k < self.config.added_assets.len()
            invariant
                k <= self.config.added_assets.len(),
                assets == self.config.added_assets@,
                self.user_claims(assets.take(k as int), user@) matches Ok(cs)
                    && out@.len() == k && cs.len() == k
                    && forall|j: int| 0 <= j < k ==> #[trigger] out@[j].0 == assets[j] && out@[j].1.value() == cs[j],
            decreases self.config.added_assets.len() - k,
        {
            let ghost before = out@;
            let ghost cs = self.user_claims(assets.take(k as int), user@)->Ok_0;
            assert(assets.take(k + 1).drop_last() =~= assets.take(k as int));
            assert(assets.take(k + 1).last() == assets[k as int]);
            let asset = &self.config.added_assets[k];
            let responses = match self.query_bids_by_user(asset, user, None, None) {
                Ok(v) => v,
                Err(e) => {
                    proof { self.lemma_claims_stuck(assets, user@, k as int + 1); }
                    return Err(e);
                },
            };
            let ghost rs = self.user_reports(*asset, user@)->Ok_0;
            proof {
                let i = queue_index(self.queues@, asset.key())->Some_0;
                let q = self.queues@[i].queue@;
                let bids = limited(user_bids(q.slots, user@, 0), 2147483646);
                assert(bid_reports(q, self.sums, asset.key(), bids) == Ok::<Seq<(nat, nat)>, LiqQueueError>(rs));
                assert(reported(responses@, bids, rs));
                assert(rs =~= response_pairs(responses@)) by {
                    assert forall|m: int| 0 <= m < rs.len() implies rs[m] == #[trigger] response_pairs(responses@)[m] by {
                        assert(responses@[m].id == bids[m].id);
                    }
                }
            }
            let total = match total_pending(&responses) {
                Some(t) => t,
                None => {
                    proof { self.lemma_claims_stuck(assets, user@, k as int + 1); }
                    return Err(LiqQueueError::MathError);
                },
            };
            proof { total.lemma_bound(); }
            assert(*asset == assets[k as int]);
            assert(self.user_claims(assets.take(k + 1), user@) == Ok::<Seq<nat>, LiqQueueError>(cs.push(pending_total(rs))));
            let entry = (asset.copy(), total);
            out.push(entry);
            proof {
                assert forall|m: int| 0 <= m < k + 1 implies #[trigger] out@[m].0 == assets[m]
                    && out@[m].1.value() == cs.push(pending_total(rs))[m] by {
                    if m < k {
                        assert(out@[m] == before[m]);
                    }
                }
            }
            k = k + 1;
        }
        assert(assets.take(self.config.added_assets.len() as int) =~= assets);
        Ok(out)
    }

    proof fn lemma_claims_stuck(&self, assets: Seq<AssetInfo>, user: Seq<char>, k: int)
        requires
            0 <= k <= assets.len(),
            self.user_claims(assets.take(k), user) is Err,
        ensures
            self.user_claims(assets, user) == self.user_claims(assets.take(k), user),
        decreases assets.len(),
    {
        if k < assets.len() {
            assert(assets.drop_last().take(k) =~= assets.take(k));
            self.lemma_claims_stuck(assets.drop_last(), user, k);
        } else {
            assert(assets.take(k) =~= assets);
        }
    }

    /// The slot of collateral `bid_for` at `premium` percent.
    pub fn query_premium_slot(&self, bid_for: &AssetInfo, premium: u64) -> (r: Result<PremiumSlot, LiqQueueError>)
        ensures
            match queue_index(self.queues@, bid_for.key()) {
                None => r == Err::<PremiumSlot, LiqQueueError>(LiqQueueError::QueueNotFound),
                Some(i) => match slot_index(self.queues@[i].queue@.slots, premium as nat) {
                    None => r == Err::<PremiumSlot, LiqQueueError>(LiqQueueError::InvalidPremium),
                    Some(j) => r matches Ok(s) && s@ == self.queues@[i].queue@.slots[j],
                },
            },
    {
        let key = bid_for.key_string();
        let i = match find_queue(&self.queues, &key) {
            Some(i) => i,
            None => return Err(LiqQueueError::QueueNotFound),
        };
        proof {
            lemma_queue_index(self.queues@, key@);
        }
        let slots = &self.queues[i].queue.slots;
        let target = Decimal256::percent(premium);
        let mut j: usize = 0;
        while j < slots.len()
            invariant
                j <= slots.len(),
                queue_index(self.queues@, bid_for.key()) == Some(i as int),
                *slots == self.queues@[i as int].queue.slots,
                target.v() == premium as nat * 10_000_000_000_000_000nat,
                slot_index(slots@.map_values(|s: PremiumSlot| s@).take(j as int), premium as nat) is None,
            decreases slots.len() - j,
        {
            let ghost views = slots@.map_values(|s: PremiumSlot| s@);
            assert(views.take(j + 1).drop_last() =~= views.take(j as int));
            assert(views.take(j + 1).last() == slots@[j as int]@);
            if slots[j].liq_premium.eq(&target) {
                proof { lemma_slot_index_prefix(views, premium as nat, j as int); }
                return Ok(slots[j].copy());
            }
            j = j + 1;
        }
        assert(slots@.map_values(|s: PremiumSlot| s@).take(slots.len() as int) =~= slots@.map_values(|s: PremiumSlot| s@));
        Err(LiqQueueError::InvalidPremium)
    }

    /// The slots of collateral `bid_for` in stored order, those above
    /// `start_after` percent where given, at most `limit` (and at most one
    /// more than the maximum premium, read as a `u8`).
    pub fn query_premium_slots(&self, bid_for: &AssetInfo, start_after: Option<u64>, limit: Option<u8>) -> (r: Result<Vec<PremiumSlot>, LiqQueueError>)
        ensures
            match queue_index(self.queues@, bid_for.key()) {
                None => r == Err::<Vec<PremiumSlot>, LiqQueueError>(LiqQueueError::QueueNotFound),
                Some(i) => {
                    let q = self.queues@[i].queue@;
                    let cap = ((q.max_premium + 1) % 256) as u8;
                    let n = match limit { Some(l) => if l < cap { l } else { cap }, None => cap };
                    let chosen = match start_after {
                        Some(s) => q.slots.filter(|v: SlotView| v.liq_premium * 100 > s as nat * fraction()),
                        None => q.slots,
                    };
                    if q.max_premium == u128::MAX {
                        r == Err::<Vec<PremiumSlot>, LiqQueueError>(LiqQueueError::MathError)
                    } else {
                        r matches Ok(v) && v@.map_values(|s: PremiumSlot| s@)
                            == chosen.take(if (n as int) < chosen.len() { n as int } else { chosen.len() as int })
                    }
                },
            },
    {
        let key = bid_for.key_string();
        let i = match find_queue(&self.queues, &key) {
            Some(i) => i,
            None => return Err(LiqQueueError::QueueNotFound),
        };
        proof {
            lemma_queue_index(self.queues@, key@);
        }
        let queue = &self.queues[i].queue;
        if queue.max_premium == u128::MAX {
            return Err(LiqQueueError::MathError);
        }
        let cap: u8 = ((queue.max_premium + 1) % 256) as u8;
        let n: u8 = match limit {
            Some(l) => if l < cap { l } else { cap },
            None => cap,
        };
        let ghost views = queue@.slots;
        let ghost pred = |v: SlotView| v.liq_premium * 100 > start_after.unwrap_or(0) as nat * fraction();
        let mut chosen: Vec<PremiumSlot> = Vec::new();
        let mut j: usize = 0;
        while j < queue.slots.len()
            invariant
                j <= queue.slots.len(),
                queue_index(self.queues@, bid_for.key()) == Some(i as int),
                *queue == self.queues@[i as int].queue,
                views == queue@.slots,
                pred == (|v: SlotView| v.liq_premium * 100 > start_after.unwrap_or(0) as nat * fraction()),
                chosen@.map_values(|s: PremiumSlot| s@) == match start_after {
                    Some(s) => views.take(j as int).filter(pred),
                    None => views.take(j as int),
                },
            decreases queue.slots.len() - j,
        {
            let ghost before = chosen@;
            proof {
                assert(views.take(j + 1) =~= views.take(j as int).push(views[j as int]));
                views.take(j as int).lemma_filter_push(views[j as int], pred);
                assert(views[j as int] == queue.slots@[j as int]@);
            }
            let keep = match start_after {
                Some(s) => {
                    let lhs = queue.slots[j].liq_premium.atomics.checked_mul(Uint256::from_u128(100));
                    let rhs = Uint256::from_u128((s as u128) * 1_000_000_000_000_000_000u128);
                    proof { queue.slots@[j as int].liq_premium.atomics.lemma_bound(); }
                    match lhs {
                        Some(l) => rhs.lt(&l),
                        None => true,
                    }
                },
                None => true,
            };
            if keep {
                chosen.push(queue.slots[j].copy());
                assert(chosen@.map_values(|s: PremiumSlot| s@) =~= before.map_values(|s: PremiumSlot| s@).push(queue.slots@[j as int]@));
            }
            j = j + 1;
        }
        assert(views.take(queue.slots.len() as int) =~= views);
        proof {
            if let Some(s) = start_after {
                assert(pred =~= (|v: SlotView| v.liq_premium * 100 > s as nat * fraction()));
            }
        }
        let mut r: Vec<PremiumSlot> = Vec::new();
        let mut k: usize = 0;
        while k < chosen.len() && k < n as usize
            invariant
                k <= chosen.len(),
                k <= n as usize,
                queue_index(self.queues@, bid_for.key()) == Some(i as int),
                *queue == self.queues@[i as int].queue,
                r@.map_values(|s: PremiumSlot| s@) == chosen@.map_values(|s: PremiumSlot| s@).take(k as int),
            decreases chosen.len() - k,
        {
            let ghost before = r@;
            r.push(chosen[k].copy());
            assert(r@.map_values(|s: PremiumSlot| s@) =~= before.map_values(|s: PremiumSlot| s@).push(chosen@[k as int]@));
            assert(chosen@.map_values(|s: PremiumSlot| s@).take(k + 1) =~= chosen@.map_values(|s: PremiumSlot| s@).take(k as int).push(chosen@[k as int]@));
            k = k + 1;
        }
        Ok(r)
    }
}


/// Bid `bid` of `queue`, as reported (see `bid_report`).
pub fn bid_response(queue: &Queue, sums: &crate::liq_queue::sums::ScaleSums, bid_for: &String, bid: Bid) -> (r: Result<BidResponse, LiqQueueError>)
    ensures
        match bid_report(queue@, *sums, bid_for@, bid) {
            Err(e) => r == Err::<BidResponse, LiqQueueError>(e),
            Ok((amount, pending)) => r matches Ok(resp) && {
                &&& resp.user == bid.user
                &&& resp.id == bid.id
                &&& resp.amount.value() == amount
                &&& resp.liq_premium == bid.liq_premium
                &&& resp.pending_liquidated_collateral.value() == pending
                &&& resp.product_snapshot == bid.product_snapshot
                &&& resp.sum_snapshot == bid.sum_snapshot
                &&& resp.wait_end == bid.wait_end
                &&& resp.epoch_snapshot == bid.epoch_snapshot
                &&& resp.scale_snapshot == bid.scale_snapshot
            },
        },
{
    let ghost views = queue@.slots;
    let i = match find_slot(&queue.slots, bid.liq_premium) {
        Some(i) => i,
        None => return Err(LiqQueueError::InvalidPremium),
    };
    proof {
        lemma_slot_index(views, bid.liq_premium as nat);
        assert(views[i as int] == queue.slots@[i as int]@);
    }
    let (amount, pending) = if bid.wait_end.is_some() {
        (bid.amount, bid.pending_liquidated_collateral)
    } else {
        let (rem, _rb, liq, _rc) = standing(sums, &bid, &queue.slots[i], bid_for)?;
        let pending = match bid.pending_liquidated_collateral.checked_add(liq) {
            Some(p) => p,
            None => return Err(LiqQueueError::MathError),
        };
        (rem, pending)
    };
    Ok(BidResponse {
        user: bid.user,
        id: bid.id,
        amount,
        liq_premium: bid.liq_premium,
        pending_liquidated_collateral: pending,
        product_snapshot: bid.product_snapshot,
        sum_snapshot: bid.sum_snapshot,
        wait_end: bid.wait_end,
        epoch_snapshot: bid.epoch_snapshot,
        scale_snapshot: bid.scale_snapshot,
    })
}

/// What the slots `slots` absorb of `remaining` collateral at the given
/// prices: each slot with bids repays the collateral's value at its
/// discount, up to its total (then taking only the collateral that its
/// total buys). Answers the leftover collateral and the debt repaid.
pub open spec fn liquidatible(slots: Seq<SlotView>, remaining: nat, repaid: nat, price: nat, credit_price: nat) -> Option<(nat, nat)>
    decreases slots.len(),
{
    if slots.len() == 0 {
        Some((remaining, repaid))
    } else if let Some((rem, rep)) = liquidatible(slots.drop_last(), remaining, repaid, price, credit_price) {
        let s = slots.last();
        if s.total_bid_amount == 0 || rem == 0 {
            Some((rem, rep))
        } else if let Some(discount) = o_sub(fraction(), s.liq_premium) {
            if let Some(premium_price) = o_dmul(price, discount) {
                if let Some(ratio) = o_ddiv(premium_price, credit_price) {
                    if let Some(required) = o_dmul_int(ratio, rem) {
                        if required > s.total_bid_amount {
                            if let Some(taken) = o_int_ddiv(s.total_bid_amount, premium_price) {
                                if taken <= rem && rep + s.total_bid_amount < u256_limit() {
                                    Some(((rem - taken) as nat, rep + s.total_bid_amount))
                                } else {
                                    None
                                }
                            } else {
                                None
                            }
                        } else if rep + required < u256_limit() {
                            Some((0, rep + required))
                        } else {
                            None
                        }
                    } else {
                        None
                    }
                } else {
                    None
                }
            } else {
                None
            }
        } else {
            None
        }
    } else {
        None
    }
}

proof fn lemma_liquidatible_stuck(slots: Seq<SlotView>, k: int, remaining: nat, price: nat, credit_price: nat)
    requires
        0 <= k <= slots.len(),
        liquidatible(slots.take(k), remaining, 0, price, credit_price) is None,
    ensures
        liquidatible(slots, remaining, 0, price, credit_price) is None,
    decreases slots.len(),
{
    if k < slots.len() {
        assert(slots.drop_last().take(k) =~= slots.take(k));
        lemma_liquidatible_stuck(slots.drop_last(), k, remaining, price, credit_price);
    } else {
        assert(slots.take(k) =~= slots);
    }
}

impl LiquidationQueue {
    /// How much of `collateral_amount` of collateral `bid_for` the queue
    /// can absorb at the given prices (atomics of 18-place decimals), for
    /// debt `credit_info` (see `liquidatible`).
    pub fn query_liquidatible(
        &self,
        bid_for: &AssetInfo,
        collateral_price: u128,
        collateral_amount: Uint256,
        credit_info: &AssetInfo,
        credit_price: u128,
    ) -> (r: Result<LiquidatibleResponse, LiqQueueError>)
        ensures
            match queue_index(self.queues@, bid_for.key()) {
                None => r == Err::<LiquidatibleResponse, LiqQueueError>(LiqQueueError::QueueNotFound),
                Some(i) => if !self.queues@[i].queue@.bid_asset_info.same(credit_info) {
                    r == Err::<LiquidatibleResponse, LiqQueueError>(LiqQueueError::InvalidAsset)
                } else {
                    match liquidatible(self.queues@[i].queue@.slots, collateral_amount.value(), 0, collateral_price as nat, credit_price as nat) {
                        None => r == Err::<LiquidatibleResponse, LiqQueueError>(LiqQueueError::MathError),
                        Some((leftover, repaid)) => r matches Ok(resp)
                            && resp.leftover_collateral.value() == leftover && resp.total_debt_repaid.value() == repaid,
                    }
                },
            },
    {
        let key = bid_for.key_string();
        let i = match find_queue(&self.queues, &key) {
            Some(i) => i,
            None => return Err(LiqQueueError::QueueNotFound),
        };
        proof {
            lemma_queue_index(self.queues@, key@);
        }
        let queue = &self.queues[i].queue;
        if !queue.bid_asset.info.equal(credit_info) {
            return Err(LiqQueueError::InvalidAsset);
        }
        let price = Decimal256::from_atomics(Uint256::from_u128(collateral_price));
        let credit = Decimal256::from_atomics(Uint256::from_u128(credit_price));
        let one = Decimal256::one();
        let ghost views = queue@.slots;
        let mut remaining = collateral_amount;
        let mut repaid = Uint256::zero();
        let mut k: usize = 0;
        assert(views.take(0) =~= Seq::<SlotView>::empty());
        while k < queue.slots.len()
            invariant
                k <= queue.slots.len(),
                queue_index(self.queues@, bid_for.key()) == Some(i as int),
                *queue == self.queues@[i as int].queue,
                queue.bid_asset.info.same(credit_info),
                views == queue@.slots,
                price.v() == collateral_price as nat,
                credit.v() == credit_price as nat,
                one.v() == fraction(),
                liquidatible(views.take(k as int), collateral_amount.value(), 0, collateral_price as nat, credit_price as nat)
                    == Some((remaining.value(), repaid.value())),
            decreases queue.slots.len() - k,
        {
            let slot = &queue.slots[k];
            assert(views.take(k + 1).drop_last() =~= views.take(k as int));
            assert(views.take(k + 1).last() == slot@);
            if !(slot.total_bid_amount.is_zero() || remaining.is_zero()) {
                let discount = match one.checked_sub(slot.liq_premium) {
                    Some(d) => d,
                    None => {
                        proof { lemma_liquidatible_stuck(views, k + 1, collateral_amount.value(), collateral_price as nat, credit_price as nat); }
                        return Err(LiqQueueError::MathError);
                    },
                };
                let premium_price = match price.checked_mul(discount) {
                    Some(d) => d,
                    None => {
                        proof { lemma_liquidatible_stuck(views, k + 1, collateral_amount.value(), collateral_price as nat, credit_price as nat); }
                        return Err(LiqQueueError::MathError);
                    },
                };
                let ratio = match premium_price.checked_div(credit) {
                    Some(d) => d,
                    None => {
                        proof { lemma_liquidatible_stuck(views, k + 1, collateral_amount.value(), collateral_price as nat, credit_price as nat); }
                        return Err(LiqQueueError::MathError);
                    },
                };
                let required = match ratio.mul_uint(remaining) {
                    Some(d) => d,
                    None => {
                        proof { lemma_liquidatible_stuck(views, k + 1, collateral_amount.value(), collateral_price as nat, credit_price as nat); }
                        return Err(LiqQueueError::MathError);
                    },
                };
                let paid;
                if slot.total_bid_amount.lt(&required) {
                    let taken = match premium_price.div_uint(slot.total_bid_amount) {
                        Some(d) => d,
                        None => {
                            proof { lemma_liquidatible_stuck(views, k + 1, collateral_amount.value(), collateral_price as nat, credit_price as nat); }
                            return Err(LiqQueueError::MathError);
                        },
                    };
                    remaining = match remaining.checked_sub(taken) {
                        Some(d) => d,
                        None => {
                            proof { lemma_liquidatible_stuck(views, k + 1, collateral_amount.value(), collateral_price as nat, credit_price as nat); }
                            return Err(LiqQueueError::MathError);
                        },
                    };
                    paid = slot.total_bid_amount;
                } else {
                    remaining = Uint256::zero();
                    paid = required;
                }
                repaid = match repaid.checked_add(paid) {
                    Some(d) => d,
                    None => {
                        proof { lemma_liquidatible_stuck(views, k + 1, collateral_amount.value(), collateral_price as nat, credit_price as nat); }
                        return Err(LiqQueueError::MathError);
                    },
                };
            }
            k = k + 1;
        }
        assert(views.take(queue.slots.len() as int) =~= views);
        Ok(LiquidatibleResponse { leftover_collateral: remaining, total_debt_repaid: repaid })
    }
}


/// A queue as reported: its bid asset and the amount of it in active bids,
/// its maximum premium, next bid id and bid threshold.
pub struct QueueResponse {
    pub bid_asset: Asset,
    pub max_premium: u128,
    pub current_bid_id: u128,
    pub bid_threshold: Uint256,
}

/// `resp` reports the queue `q`.
pub open spec fn reports_queue(resp: QueueResponse, q: QueueView) -> bool {
    &&& resp.bid_asset.info == q.bid_asset_info
    &&& resp.bid_asset.amount == q.bid_asset_amount
    &&& resp.max_premium == q.max_premium
    &&& resp.current_bid_id == q.current_bid_id
    &&& resp.bid_threshold.value() == q.bid_threshold
}

/// The index of the first of `assets` that is `a`.
pub open spec fn asset_position(assets: Seq<AssetInfo>, a: AssetInfo) -> Option<int>
    decreases assets.len(),
{
    if assets.len() == 0 {
        None
    } else if let Some(i) = asset_position(assets.drop_last(), a) {
        Some(i)
    } else if assets.last().same(&a) {
        Some(assets.len() - 1)
    } else {
        None
    }
}

proof fn lemma_asset_position(assets: Seq<AssetInfo>, a: AssetInfo)
    ensures
        asset_position(assets, a) matches Some(i) ==> 0 <= i < assets.len(),
    decreases assets.len(),
{
    if assets.len() > 0 {
        lemma_asset_position(assets.drop_last(), a);
    }
}

/// The assets whose queues a listing shows: from the first that is
/// `start_after` (inclusive) to the end; else the first `limit` (31 if none).
pub open spec fn listed_assets(assets: Seq<AssetInfo>, start_after: Option<AssetInfo>, limit: Option<u8>) -> Seq<AssetInfo> {
    match start_after {
        Some(a) => assets.skip(asset_position(assets, a)->Some_0),
        None => {
            let n = match limit { Some(l) => l as int, None => 31 };
            assets.take(if n < assets.len() { n } else { assets.len() as int })
        },
    }
}

impl LiquidationQueue {
    /// The queues of `assets` in order, or `QueueNotFound` at the first
    /// without one.
    pub open spec fn queues_of(&self, assets: Seq<AssetInfo>) -> Result<Seq<QueueView>, LiqQueueError>
        decreases assets.len(),
    {
        if assets.len() == 0 {
            Ok(Seq::empty())
        } else {
            match self.queues_of(assets.drop_last()) {
                Err(e) => Err(e),
                Ok(qs) => match queue_index(self.queues@, assets.last().key()) {
                    None => Err(LiqQueueError::QueueNotFound),
                    Some(i) => Ok(qs.push(self.queues@[i].queue@)),
                },
            }
        }
    }

    proof fn lemma_queues_of_stuck(&self, assets: Seq<AssetInfo>, k: int)
        requires
            0 <= k <= assets.len(),
            self.queues_of(assets.take(k)) is Err,
        ensures
            self.queues_of(assets) == self.queues_of(assets.take(k)),
        decreases assets.len(),
    {
        if k < assets.len() {
            assert(assets.drop_last().take(k) =~= assets.take(k));
            self.lemma_queues_of_stuck(assets.drop_last(), k);
        } else {
            assert(assets.take(k) =~= assets);
        }
    }

    /// The queue of collateral `bid_for`, as reported.
    pub fn query_queue(&self, bid_for: &AssetInfo) -> (r: Result<QueueResponse, LiqQueueError>)
        ensures
            match queue_index(self.queues@, bid_for.key()) {
                None => r == Err::<QueueResponse, LiqQueueError>(LiqQueueError::QueueNotFound),
                Some(i) => r matches Ok(resp) && reports_queue(resp, self.queues@[i].queue@),
            },
    {
        let key = bid_for.key_string();
        proof {
            lemma_queue_index(self.queues@, key@);
        }
        match find_queue(&self.queues, &key) {
            Some(i) => Ok(queue_response(&self.queues[i].queue)),
            None => Err(LiqQueueError::QueueNotFound),
        }
    }

    /// The queues of the added assets (see `listed_assets`), as reported.
    pub fn query_queues(&self, start_after: Option<AssetInfo>, limit: Option<u8>) -> (r: Result<Vec<QueueResponse>, LiqQueueError>)
        requires
            start_after matches Some(a) ==> asset_position(self.config.added_assets@, a) is Some,
        ensures
            match self.queues_of(listed_assets(self.config.added_assets@, start_after, limit)) {
                Err(e) => r == Err::<Vec<QueueResponse>, LiqQueueError>(e),
                Ok(qs) => r matches Ok(v) && v@.len() == qs.len()
                    && forall|k: int| 0 <= k < qs.len() ==> #[trigger] reports_queue(v@[k], qs[k]),
            },
    {
        let assets = &self.config.added_assets;
        proof {
            if start_after is Some {
                lemma_asset_position(assets@, start_after->Some_0);
            }
        }
        let (from, to): (usize, usize) = match &start_after {
            Some(a) => (first_equal(assets, a), assets.len()),
            None => {
                let n: usize = match limit { Some(l) => l as usize, None => 31 };
                (0, if n < assets.len() { n } else { assets.len() })
            },
        };
        let ghost listed = listed_assets(self.config.added_assets@, start_after, limit);
        assert(listed =~= assets@.subrange(from as int, to as int));
        let mut out: Vec<QueueResponse> = Vec::new();
        let mut k: usize = from;
        assert(listed.take(0) =~= Seq::<AssetInfo>::empty());
        while k < to
            invariant
                from <= k <= to <= assets.len(),
                *assets == self.config.added_assets,
                listed == listed_assets(self.config.added_assets@, start_after, limit),
                listed == assets@.subrange(from as int, to as int),
                self.queues_of(listed.take(k - from)) matches Ok(qs) && out@.len() == qs.len()
                    && forall|j: int| 0 <= j < qs.len() ==> #[trigger] reports_queue(out@[j], qs[j]),
            decreases to - k,
        {
            let ghost before = out@;
            let ghost qs = self.queues_of(listed.take(k - from))->Ok_0;
            assert(listed.take(k - from + 1).drop_last() =~= listed.take(k - from));
            assert(listed.take(k - from + 1).last() == assets@[k as int]);
            let key = assets[k].key_string();
            proof {
                lemma_queue_index(self.queues@, key@);
            }
            let i = match find_queue(&self.queues, &key) {
                Some(i) => i,
                None => {
                    proof { self.lemma_queues_of_stuck(listed, k - from + 1); }
                    return Err(LiqQueueError::QueueNotFound);
                },
            };
            let resp = queue_response(&self.queues[i].queue);
            let ghost got = resp;
            out.push(resp);
            proof {
                assert forall|j: int| 0 <= j < qs.len() + 1 implies #[trigger] reports_queue(out@[j], qs.push(self.queues@[i as int].queue@)[j]) by {
                    if j < qs.len() {
                        assert(out@[j] == before[j]);
                    } else {
                        assert(out@[j] == got);
                    }
                }
            }
            k = k + 1;
        }
        assert(listed.take(to - from) =~= listed);
        Ok(out)
    }
}

/// The report of `queue`.
fn queue_response(queue: &Queue) -> (r: QueueResponse)
    ensures
        reports_queue(r, queue@),
{
    QueueResponse {
        bid_asset: Asset { info: queue.bid_asset.info.copy(), amount: queue.bid_asset.amount },
        max_premium: queue.max_premium,
        current_bid_id: queue.current_bid_id,
        bid_threshold: queue.bid_threshold,
    }
}

/// The index of the first of `assets` that is `a`, which is there.
fn first_equal(assets: &Vec<AssetInfo>, a: &AssetInfo) -> (r: usize)
    requires
        asset_position(assets@, *a) is Some,
    ensures
        asset_position(assets@, *a) == Some(r as int),
{
    proof { lemma_asset_position(assets@, *a); }
    let mut i: usize = 0;
    while i < assets.len()
        invariant
            i <= assets.len(),
            asset_position(assets@, *a) is Some,
            asset_position(assets@.take(i as int), *a) is None,
        decreases assets.len() - i,
    {
        assert(assets@.take(i + 1).drop_last() =~= assets@.take(i as int));
        assert(assets@.take(i + 1).last() == assets@[i as int]);
        if assets[i].equal(a) {
            proof { lemma_asset_position_prefix(assets@, *a, i as int); }
            return i;
        }
        i = i + 1;
    }
    assert(assets@.take(assets.len() as int) =~= assets@);
    0
}

proof fn lemma_asset_position_prefix(assets: Seq<AssetInfo>, a: AssetInfo, i: int)
    requires
        0 <= i < assets.len(),
        asset_position(assets.take(i), a) is None,
        assets[i].same(&a),
    ensures
        asset_position(assets, a) == Some(i),
    decreases assets.len(),
{
    if i < assets.len() - 1 {
        assert(assets.drop_last().take(i) =~= assets.take(i));
        lemma_asset_position_prefix(assets.drop_last(), a, i);
        assert(assets.drop_last()[i] == assets[i]);
    } else {
        assert(assets.drop_last() =~= assets.take(i));
    }
}

} // verus!
