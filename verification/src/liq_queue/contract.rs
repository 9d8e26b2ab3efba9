//! The liquidation queue contract's state and its operations.
use vstd::prelude::*;
use crate::math::{Uint256, fraction};
use crate::decimal256::Decimal256;
use crate::liq_queue::types::{
    AssetInfo, Asset, Bid, Coin, Config, PremiumSlot, SlotView, Queue, QueueView, PriceResponse256, LiqQueueError,
};
use crate::liq_queue::store::premium_atomics;
use crate::liq_queue::sums::ScaleSums;
use crate::liq_queue::bidding::{assert_bid_asset_from_sent_funds, funds_check, premium_allowed, validate_bid_input,
    place_bid, placement_outcome};
use crate::liq_queue::liquidation::{liquidate_queue, queue_liquidation};
use crate::liq_queue::queue_ops::{
    read_bid, read_bid_spec, read_bids_by_user, retract_in_queue, retract_outcome, claim_in_queue,
    claim_all, user_bids, limited,
};
use crate::liq_queue::withdraw::requested_value;

verus! {

/// The queue of one collateral asset.
pub struct QueueEntry {
    pub bid_for: AssetInfo,
    pub queue: Queue,
}

/// The state of the liquidation queue contract.
pub struct LiquidationQueue {
    pub config: Config,
    pub queues: Vec<QueueEntry>,
    pub sums: ScaleSums,
    pub ownership_transfer: Option<String>,
}

/// The index of the first queue whose collateral has the key `key`.
pub open spec fn queue_index(entries: Seq<QueueEntry>, key: Seq<char>) -> Option<int>
    decreases entries.len(),
{
    if entries.len() == 0 {
        None
    } else if let Some(i) = queue_index(entries.drop_last(), key) {
        Some(i)
    } else if entries.last().bid_for.key() == key {
        Some(entries.len() - 1)
    } else {
        None
    }
}

pub proof fn lemma_queue_index(entries: Seq<QueueEntry>, key: Seq<char>)
    ensures
        queue_index(entries, key) matches Some(i) ==> 0 <= i < entries.len() && entries[i].bid_for.key() == key,
        queue_index(entries, key) is None ==> forall|j: int| 0 <= j < entries.len() ==> entries[j].bid_for.key() != key,
    decreases entries.len(),
{
    if entries.len() > 0 {
        lemma_queue_index(entries.drop_last(), key);
        assert(entries.last() == entries[entries.len() - 1]);
        if let Some(i) = queue_index(entries.drop_last(), key) {
            assert(entries.drop_last()[i] == entries[i]);
        }
        if queue_index(entries, key) is None {
            assert forall|j: int| 0 <= j < entries.len() implies entries[j].bid_for.key() != key by {
                if j < entries.len() - 1 {
                    assert(entries.drop_last()[j] == entries[j]);
                }
            }
        }
    }
}

/// The index of the queue of the collateral with key `key`.
pub fn find_queue(entries: &Vec<QueueEntry>, key: &String) -> (r: Option<usize>)
    ensures
        r matches Some(i) ==> queue_index(entries@, key@) == Some(i as int),
        r is None ==> queue_index(entries@, key@) is None,
{
    proof {
        lemma_queue_index(entries@, key@);
    }
    let mut i: usize = 0;
    while i < entries.len()
        invariant
            i <= entries.len(),
            queue_index(entries@.take(i as int), key@) is None,
        decreases entries.len() - i,
    {
        let k = entries[i].bid_for.key_string();
        assert(entries@.take(i + 1).drop_last() =~= entries@.take(i as int));
        assert(entries@.take(i + 1).last() == entries@[i as int]);
        if k == *key {
            proof {
                lemma_queue_index_prefix(entries@, key@, i as int);
            }
            return Some(i);
        }
        i = i + 1;
    }
    assert(entries@.take(entries.len() as int) =~= entries@);
    None
}

proof fn lemma_queue_index_prefix(entries: Seq<QueueEntry>, key: Seq<char>, i: int)
    requires
        0 <= i < entries.len(),
        queue_index(entries.take(i), key) is None,
        entries[i].bid_for.key() == key,
    ensures
        queue_index(entries, key) == Some(i),
    decreases entries.len(),
{
    if i < entries.len() - 1 {
        assert(entries.drop_last().take(i) =~= entries.take(i));
        lemma_queue_index_prefix(entries.drop_last(), key, i);
        assert(entries.drop_last()[i] == entries[i]);
    } else {
        assert(entries.drop_last() =~= entries.take(i));
    }
}

/// The state is the same but for queue `i`, which now has the view `q2`.
pub open spec fn replaced_queue(old: &LiquidationQueue, new: &LiquidationQueue, i: int, q2: QueueView) -> bool {
    &&& new.queues@.len() == old.queues@.len()
    &&& forall|j: int| 0 <= j < old.queues@.len() && j != i ==> #[trigger] new.queues@[j] == old.queues@[j]
    &&& new.queues@[i].bid_for == old.queues@[i].bid_for
    &&& new.queues@[i].queue@ == q2
    &&& new.config == old.config
    &&& new.ownership_transfer == old.ownership_transfer
}

impl LiquidationQueue {
    /// A new liquidation queue. The owner is `owner` where given, else the
    /// sender; `bid_asset` is the debt token that bids are made in.
    pub fn instantiate(
        owner: Option<String>,
        sender: String,
        positions_contract: String,
        osmosis_proxy_contract: String,
        waiting_period: u64,
        minimum_bid: u128,
        maximum_waiting_bids: u64,
        bid_asset: AssetInfo,
    ) -> (r: LiquidationQueue)
        ensures
            r.config.owner == (match owner { Some(o) => o, None => sender }),
            r.config.positions_contract == positions_contract,
            r.config.osmosis_proxy_contract == osmosis_proxy_contract,
            r.config.waiting_period == waiting_period,
            r.config.minimum_bid == minimum_bid,
            r.config.maximum_waiting_bids == maximum_waiting_bids,
            r.config.bid_asset == bid_asset,
            r.config.added_assets@.len() == 0,
            r.queues@.len() == 0,
            r.sums.entries@.len() == 0,
            r.ownership_transfer is None,
    {
        let owner = match owner {
            Some(o) => o,
            None => sender,
        };
        LiquidationQueue {
            config: Config {
                owner,
                positions_contract,
                osmosis_proxy_contract,
                waiting_period,
                added_assets: Vec::new(),
                bid_asset,
                minimum_bid,
                maximum_waiting_bids,
            },
            queues: Vec::new(),
            sums: ScaleSums { entries: Vec::new() },
            ownership_transfer: None,
        }
    }

    /// Update the configuration. Only the owner may, or the address that an
    /// ownership transfer named, which then becomes the owner. A new owner
    /// given here is only named for transfer.
    pub fn update_config(
        &mut self,
        sender: &String,
        owner: Option<String>,
        positions_contract: Option<String>,
        osmosis_proxy_contract: Option<String>,
        waiting_period: Option<u64>,
        minimum_bid: Option<u128>,
        maximum_waiting_bids: Option<u64>,
    ) -> (r: Result<(), LiqQueueError>)
        ensures
            ({
                let authorized = sender@ == old(self).config.owner@
                    || (old(self).ownership_transfer matches Some(t) && t@ == sender@);
                &&& (old(self).ownership_transfer is None && sender@ != old(self).config.owner@) ==>
                    r == Err::<(), LiqQueueError>(LiqQueueError::OwnershipTransferNotSet)
                &&& (old(self).ownership_transfer is Some && !authorized) ==>
                    r == Err::<(), LiqQueueError>(LiqQueueError::Unauthorized)
                &&& r is Err ==> *final(self) == *old(self)
                &&& authorized ==> {
                    &&& r is Ok
                    &&& final(self).config.owner == (if sender@ != old(self).config.owner@ { *sender } else { old(self).config.owner })
                    &&& final(self).ownership_transfer == (match owner { Some(o) => Some(o), None => old(self).ownership_transfer })
                    &&& final(self).config.positions_contract == (match positions_contract { Some(a) => a, None => old(self).config.positions_contract })
                    &&& final(self).config.osmosis_proxy_contract == (match osmosis_proxy_contract { Some(a) => a, None => old(self).config.osmosis_proxy_contract })
                    &&& final(self).config.waiting_period == (match waiting_period { Some(a) => a, None => old(self).config.waiting_period })
                    &&& final(self).config.minimum_bid == (match minimum_bid { Some(a) => a, None => old(self).config.minimum_bid })
                    &&& final(self).config.maximum_waiting_bids == (match maximum_waiting_bids { Some(a) => a, None => old(self).config.maximum_waiting_bids })
                    &&& final(self).config.bid_asset == old(self).config.bid_asset
                    &&& final(self).config.added_assets == old(self).config.added_assets
                    &&& final(self).queues == old(self).queues
                    &&& final(self).sums == old(self).sums
                }
            }),
    {
        let mut new_owner: Option<String> = None;
        if *sender != self.config.owner {
            match &self.ownership_transfer {
                None => return Err(LiqQueueError::OwnershipTransferNotSet),
                Some(t) => {
                    if *sender == *t {
                        new_owner = Some(sender.clone());
                    } else {
                        return Err(LiqQueueError::Unauthorized);
                    }
                },
            }
        }
        if let Some(o) = new_owner {
            self.config.owner = o;
        }
        if let Some(o) = owner {
            self.ownership_transfer = Some(o);
        }
        if let Some(a) = positions_contract {
            self.config.positions_contract = a;
        }
        if let Some(a) = osmosis_proxy_contract {
            self.config.osmosis_proxy_contract = a;
        }
        if let Some(a) = waiting_period {
            self.config.waiting_period = a;
        }
        if let Some(a) = minimum_bid {
            self.config.minimum_bid = a;
        }
        if let Some(a) = maximum_waiting_bids {
            self.config.maximum_waiting_bids = a;
        }
        Ok(())
    }

    /// Submit a bid of the coins sent, for `owner`, at `premium` percent on
    /// the collateral `bid_for`, at time `now` (in seconds). A part of the
    /// bid that waits waits until `now` plus the waiting period.
    pub fn submit_bid(
        &mut self,
        owner: &String,
        bid_for: &AssetInfo,
        premium: u8,
        funds: &Vec<Coin>,
        now: u64,
    ) -> (r: Result<(), LiqQueueError>)
        ensures
            r is Err ==> *final(self) == *old(self),
            match queue_index(old(self).queues@, bid_for.key()) {
                None => r == Err::<(), LiqQueueError>(LiqQueueError::InvalidAsset),
                Some(i) => {
                    let q = old(self).queues@[i].queue@;
                    if !premium_allowed(q.max_premium, premium) {
                        r == Err::<(), LiqQueueError>(LiqQueueError::InvalidPremium)
                    } else {
                        match funds_check(q.bid_asset_info, funds@, old(self).config.minimum_bid) {
                            Err(e) => r == Err::<(), LiqQueueError>(e),
                            Ok(amount) => {
                                let wait_end = if now as nat + old(self).config.waiting_period as nat <= u64::MAX as nat {
                                    Some((now + old(self).config.waiting_period) as u64)
                                } else {
                                    None
                                };
                                &&& placement_outcome(q, owner@, premium, amount as nat,
                                    old(self).config.minimum_bid as nat, wait_end,
                                    old(self).config.maximum_waiting_bids,
                                    match r {
                                        Ok(_) => Ok(final(self).queues@[i].queue@),
                                        Err(e) => Err(e),
                                    })
                                &&& r is Ok ==> replaced_queue(old(self), final(self), i, final(self).queues@[i].queue@)
                                    && final(self).sums == old(self).sums
                            },
                        }
                    }
                },
            },
    {
        let key = bid_for.key_string();
        let i = match find_queue(&self.queues, &key) {
            Some(i) => i,
            None => return Err(LiqQueueError::InvalidAsset),
        };
        proof {
            lemma_queue_index(self.queues@, key@);
        }
        let queue = &self.queues[i].queue;
        validate_bid_input(queue.max_premium, premium)?;
        let amount = assert_bid_asset_from_sent_funds(&queue.bid_asset.info, funds, self.config.minimum_bid)?;
        let wait_end = now.checked_add(self.config.waiting_period);
        let result = place_bid(queue, owner, premium, amount, self.config.minimum_bid, wait_end,
            self.config.maximum_waiting_bids);
        let q2 = match result {
            Ok(q2) => q2,
            Err(e) => return Err(e),
        };
        let entry = QueueEntry { bid_for: self.queues[i].bid_for.copy(), queue: q2 };
        self.queues.set(i, entry);
        Ok(())
    }

    /// Add the queue of collateral `bid_for`, with one empty slot per
    /// premium `0 ..= max_premium` percent. Only the owner or the positions
    /// contract may.
    pub fn add_queue(&mut self, sender: &String, bid_for: AssetInfo, max_premium: u128, bid_threshold: Uint256) -> (r: Result<(), LiqQueueError>)
        ensures
            r is Err ==> *final(self) == *old(self),
            sender@ != old(self).config.owner@ && sender@ != old(self).config.positions_contract@ ==>
                r == Err::<(), LiqQueueError>(LiqQueueError::Unauthorized),
            (sender@ == old(self).config.owner@ || sender@ == old(self).config.positions_contract@) ==> {
                if max_premium == u128::MAX {
                    r == Err::<(), LiqQueueError>(LiqQueueError::MathError)
                } else if queue_index(old(self).queues@, bid_for.key()) is Some {
                    r == Err::<(), LiqQueueError>(LiqQueueError::DuplicateQueue)
                } else {
                    &&& r is Ok
                    &&& final(self).queues@.len() == old(self).queues@.len() + 1
                    &&& final(self).queues@.drop_last() == old(self).queues@
                    &&& final(self).queues@.last().bid_for == bid_for
                    &&& final(self).queues@.last().queue@ == QueueView {
                        bid_asset_info: old(self).config.bid_asset,
                        bid_asset_amount: 0,
                        max_premium,
                        slots: fresh_slots(0, ((max_premium + 1) as u128) as u64 as nat),
                        current_bid_id: 1,
                        bid_threshold: bid_threshold.value(),
                    }
                    &&& final(self).config.added_assets@ == old(self).config.added_assets@.push(bid_for)
                    &&& final(self).config.owner == old(self).config.owner
                    &&& final(self).config.positions_contract == old(self).config.positions_contract
                    &&& final(self).config.bid_asset == old(self).config.bid_asset
                    &&& final(self).sums == old(self).sums
                }
            },
    {
        if *sender != self.config.owner && *sender != self.config.positions_contract {
            return Err(LiqQueueError::Unauthorized);
        }
        if max_premium == u128::MAX {
            return Err(LiqQueueError::MathError);
        }
        let count: u64 = (max_premium + 1) as u64;
        let slots = new_slots(0, count);
        let key = bid_for.key_string();
        if find_queue(&self.queues, &key).is_some() {
            return Err(LiqQueueError::DuplicateQueue);
        }
        let queue = Queue {
            bid_asset: Asset { info: self.config.bid_asset.copy(), amount: 0 },
            max_premium,
            slots,
            current_bid_id: 1,
            bid_threshold,
        };
        let added = bid_for.copy();
        self.queues.push(QueueEntry { bid_for, queue });
        self.config.added_assets.push(added);
        Ok(())
    }

    /// Edit a queue: a new maximum premium (between 1 and 50) adds empty
    /// slots for the premiums above the old maximum; a new bid threshold
    /// must lie between 1,000,000 and 10,000,000. Only the owner may.
    pub fn edit_queue(&mut self, sender: &String, bid_for: &AssetInfo, max_premium: Option<u128>, bid_threshold: Option<Uint256>) -> (r: Result<(), LiqQueueError>)
        ensures
            r is Err ==> *final(self) == *old(self),
            sender@ != old(self).config.owner@ ==> r == Err::<(), LiqQueueError>(LiqQueueError::Unauthorized),
            sender@ == old(self).config.owner@ ==> match queue_index(old(self).queues@, bid_for.key()) {
                None => r == Err::<(), LiqQueueError>(LiqQueueError::QueueNotFound),
                Some(i) => {
                    let q = old(self).queues@[i].queue@;
                    if max_premium matches Some(m) && (m > 50 || m < 1) {
                        r == Err::<(), LiqQueueError>(LiqQueueError::InvalidPremium)
                    } else if bid_threshold matches Some(t) && (t.value() > 10_000_000 || t.value() < 1_000_000) {
                        r == Err::<(), LiqQueueError>(LiqQueueError::InvalidBidThreshold)
                    } else {
                        &&& r is Ok
                        &&& replaced_queue(old(self), final(self), i, QueueView {
                            max_premium: match max_premium { Some(m) => m, None => q.max_premium },
                            slots: match max_premium {
                                Some(m) => if m > q.max_premium {
                                    q.slots + fresh_slots((q.max_premium + 1) as nat, (m + 1) as nat)
                                } else {
                                    q.slots
                                },
                                None => q.slots,
                            },
                            bid_threshold: match bid_threshold { Some(t) => t.value(), None => q.bid_threshold },
                            ..q
                        })
                        &&& final(self).sums == old(self).sums
                    }
                },
            },
    {
        if *sender != self.config.owner {
            return Err(LiqQueueError::Unauthorized);
        }
        let key = bid_for.key_string();
        let i = match find_queue(&self.queues, &key) {
            Some(i) => i,
            None => return Err(LiqQueueError::QueueNotFound),
        };
        proof {
            lemma_queue_index(self.queues@, key@);
        }
        let old_q = &self.queues[i].queue;
        let mut new_max = old_q.max_premium;
        let mut slots = copy_slots(&old_q.slots);
        if let Some(m) = max_premium {
            if m > 50 || m < 1 {
                return Err(LiqQueueError::InvalidPremium);
            }
            if m > old_q.max_premium {
                let extra = new_slots((old_q.max_premium + 1) as u64, (m + 1) as u64);
                let ghost before = slots@;
                let mut extra = extra;
                slots.append(&mut extra);
                assert(slots@.map_values(|s: PremiumSlot| s@) =~= before.map_values(|s: PremiumSlot| s@)
                    + fresh_slots((old_q.max_premium + 1) as nat, (m + 1) as nat));
            }
            new_max = m;
        }
        let mut threshold = old_q.bid_threshold;
        if let Some(t) = bid_threshold {
            let hi = Uint256::from_u128(10_000_000);
            let lo = Uint256::from_u128(1_000_000);
            if hi.lt(&t) || t.lt(&lo) {
                return Err(LiqQueueError::InvalidBidThreshold);
            }
            threshold = t;
        }
        let q2 = Queue {
            bid_asset: Asset { info: old_q.bid_asset.info.copy(), amount: old_q.bid_asset.amount },
            max_premium: new_max,
            slots,
            current_bid_id: old_q.current_bid_id,
            bid_threshold: threshold,
        };
        let entry = QueueEntry { bid_for: self.queues[i].bid_for.copy(), queue: q2 };
        self.queues.set(i, entry);
        Ok(())
    }

    /// Retract (part of) bid `bid_id` on collateral `bid_for` (see
    /// `retract_outcome`): answers the amount refunded.
    pub fn retract_bid(&mut self, sender: &String, bid_id: u128, bid_for: &AssetInfo, amount: Option<Uint256>) -> (r: Result<u128, LiqQueueError>)
        ensures
            r is Err ==> *final(self) == *old(self),
            match queue_index(old(self).queues@, bid_for.key()) {
                None => r == Err::<u128, LiqQueueError>(LiqQueueError::QueueNotFound),
                Some(i) => match retract_outcome(old(self).queues@[i].queue@, old(self).sums, bid_for.key(), sender@,
                    bid_id, requested_value(amount), old(self).config.minimum_bid as nat) {
                    Err(e) => r == Err::<u128, LiqQueueError>(e),
                    Ok((q2, refund)) => r == Ok::<u128, LiqQueueError>(refund as u128)
                        && replaced_queue(old(self), final(self), i, q2) && final(self).sums == old(self).sums,
                },
            },
    {
        let key = bid_for.key_string();
        let i = match find_queue(&self.queues, &key) {
            Some(i) => i,
            None => return Err(LiqQueueError::QueueNotFound),
        };
        proof {
            lemma_queue_index(self.queues@, key@);
        }
        let minimum = Uint256::from_u128(self.config.minimum_bid);
        let (q2, refund) = retract_in_queue(&self.queues[i].queue, &self.sums, &key, sender, bid_id, amount, minimum)?;
        let refund_u128 = match refund.to_u128() {
            Some(x) => x,
            None => return Err(LiqQueueError::MathError),
        };
        let entry = QueueEntry { bid_for: self.queues[i].bid_for.copy(), queue: q2 };
        self.queues.set(i, entry);
        Ok(refund_u128)
    }

    /// Liquidate `collateral_amount` of collateral `bid_for` against its
    /// queue at the given prices (see `queue_liquidation`). Only the
    /// positions contract may, and only against a queue of the configured
    /// bid asset. Answers the amount of the bid asset repaid.
    pub fn execute_liquidation(
        &mut self,
        sender: &String,
        collateral_amount: Uint256,
        bid_for: &AssetInfo,
        collateral_price: &PriceResponse256,
        credit_price: &PriceResponse256,
        now: u64,
    ) -> (r: Result<u128, LiqQueueError>)
        ensures
            r is Err ==> *final(self) == *old(self),
            sender@ != old(self).config.positions_contract@ ==> r == Err::<u128, LiqQueueError>(LiqQueueError::Unauthorized),
            sender@ == old(self).config.positions_contract@ ==> match queue_index(old(self).queues@, bid_for.key()) {
                None => r == Err::<u128, LiqQueueError>(LiqQueueError::QueueNotFound),
                Some(i) => if !old(self).queues@[i].queue@.bid_asset_info.same(&old(self).config.bid_asset) {
                    r == Err::<u128, LiqQueueError>(LiqQueueError::Unauthorized)
                } else {
                    match queue_liquidation(old(self).queues@[i].queue@, collateral_amount.value(),
                        old(self).queues@[i].bid_for.key_string_spec(), old(self).config.waiting_period, now,
                        *collateral_price, *credit_price) {
                        Err(e) => r == Err::<u128, LiqQueueError>(e),
                        Ok((q2, records, repaid)) => r == Ok::<u128, LiqQueueError>(repaid as u128)
                            && replaced_queue(old(self), final(self), i, q2)
                            && final(self).sums.entries@ == old(self).sums.entries@ + records,
                    }
                },
            },
    {
        if *sender != self.config.positions_contract {
            return Err(LiqQueueError::Unauthorized);
        }
        let key = bid_for.key_string();
        let i = match find_queue(&self.queues, &key) {
            Some(i) => i,
            None => return Err(LiqQueueError::QueueNotFound),
        };
        proof {
            lemma_queue_index(self.queues@, key@);
        }
        if !self.queues[i].queue.bid_asset.info.equal(&self.config.bid_asset) {
            return Err(LiqQueueError::Unauthorized);
        }
        let stored_key = self.queues[i].bid_for.key_string();
        let (q2, records, repaid) = liquidate_queue(&self.queues[i].queue, collateral_amount, &stored_key,
            self.config.waiting_period, now, collateral_price, credit_price)?;
        let repaid_u128 = match repaid.to_u128() {
            Some(x) => x,
            None => return Err(LiqQueueError::MathError),
        };
        let entry = QueueEntry { bid_for: self.queues[i].bid_for.copy(), queue: q2 };
        self.queues.set(i, entry);
        let mut records = records;
        self.sums.entries.append(&mut records);
        Ok(repaid_u128)
    }

    /// Claim the collateral liquidated against the bids `bid_ids` (or, where
    /// none are named, against all active bids of the sender) on collateral
    /// `bid_for`, at time `now` (see `claim_all`). Answers the amount claimed.
    pub fn claim_liquidations(&mut self, sender: &String, bid_for: &AssetInfo, bid_ids: Option<Vec<u128>>, now: u64) -> (r: Result<Uint256, LiqQueueError>)
        ensures
            r is Err ==> *final(self) == *old(self),
            match queue_index(old(self).queues@, bid_for.key()) {
                None => r == Err::<Uint256, LiqQueueError>(LiqQueueError::QueueNotFound),
                Some(i) => {
                    let q = old(self).queues@[i].queue@;
                    let bids = match bid_ids {
                        Some(ids) => read_bids_spec(q, ids@),
                        None => Ok(limited(user_bids(q.slots, sender@, 0), 2147483646)),
                    };
                    match bids {
                        Err(e) => r == Err::<Uint256, LiqQueueError>(e),
                        Ok(bids) => match claim_all(q.slots, bids, old(self).sums, bid_for.key(), sender@, now) {
                            Err(e) => r == Err::<Uint256, LiqQueueError>(e),
                            Ok((slots, claimed)) => r matches Ok(c) && c.value() == claimed
                                && replaced_queue(old(self), final(self), i, QueueView { slots, ..q })
                                && final(self).sums == old(self).sums,
                        },
                    }
                },
            },
    {
        let key = bid_for.key_string();
        let i = match find_queue(&self.queues, &key) {
            Some(i) => i,
            None => return Err(LiqQueueError::QueueNotFound),
        };
        proof {
            lemma_queue_index(self.queues@, key@);
        }
        let queue = &self.queues[i].queue;
        let bids = match bid_ids {
            Some(ids) => read_bids(queue, &ids)?,
            None => read_bids_by_user(queue, sender, None, None),
        };
        let (q2, claimed) = claim_in_queue(queue, &self.sums, &key, &bids, sender, now)?;
        let entry = QueueEntry { bid_for: self.queues[i].bid_for.copy(), queue: q2 };
        self.queues.set(i, entry);
        Ok(claimed)
    }
}

/// A fresh slot at premium `p` percent.
pub open spec fn fresh_slot(p: nat) -> SlotView {
    SlotView {
        bids: Seq::empty(),
        waiting_bids: Seq::empty(),
        liq_premium: premium_atomics(p),
        sum_snapshot: 0,
        product_snapshot: fraction(),
        total_bid_amount: 0,
        last_total: 0,
        current_epoch: 0,
        current_scale: 0,
        residue_collateral: 0,
        residue_bid: 0,
    }
}

/// Fresh slots at the premiums `from .. to` percent.
pub open spec fn fresh_slots(from: nat, to: nat) -> Seq<SlotView> {
    Seq::new((if to >= from { to - from } else { 0 }) as nat, |k: int| fresh_slot((from + k) as nat))
}

/// Fresh slots at the premiums `from .. to` percent.
pub fn new_slots(from: u64, to: u64) -> (r: Vec<PremiumSlot>)
    ensures
        r@.map_values(|s: PremiumSlot| s@) == fresh_slots(from as nat, to as nat),
{
    let mut r: Vec<PremiumSlot> = Vec::new();
    let mut p: u64 = from;
    if to < from {
        assert(r@.map_values(|s: PremiumSlot| s@) =~= fresh_slots(from as nat, to as nat));
        return r;
    }
    while p < to
        invariant
            from <= p <= to,
            r@.map_values(|s: PremiumSlot| s@) == fresh_slots(from as nat, p as nat),
        decreases to - p,
    {
        let ghost before = r@;
        r.push(PremiumSlot {
            bids: Vec::new(),
            waiting_bids: Vec::new(),
            liq_premium: Decimal256::percent(p),
            sum_snapshot: Decimal256::zero(),
            product_snapshot: Decimal256::one(),
            total_bid_amount: Uint256::zero(),
            last_total: 0,
            current_epoch: 0,
            current_scale: 0,
            residue_collateral: Decimal256::zero(),
            residue_bid: Decimal256::zero(),
        });
        assert(r@.last()@ =~= fresh_slot(p as nat));
        assert(r@.map_values(|s: PremiumSlot| s@) =~= before.map_values(|s: PremiumSlot| s@).push(r@.last()@));
        assert(fresh_slots(from as nat, (p + 1) as nat) =~= fresh_slots(from as nat, p as nat).push(fresh_slot(p as nat)));
        p = p + 1;
    }
    r
}

/// The bids with the ids `ids`, in order (see `read_bid_spec`).
pub open spec fn read_bids_spec(q: QueueView, ids: Seq<u128>) -> Result<Seq<Bid>, LiqQueueError>
    decreases ids.len(),
{
    if ids.len() == 0 {
        Ok(Seq::empty())
    } else {
        match read_bids_spec(q, ids.drop_last()) {
            Err(e) => Err(e),
            Ok(bids) => match read_bid_spec(q, ids.last()) {
                Err(e) => Err(e),
                Ok(b) => Ok(bids.push(b)),
            },
        }
    }
}

proof fn lemma_read_bids_stuck(q: QueueView, ids: Seq<u128>, k: int)
    requires
        0 <= k <= ids.len(),
        read_bids_spec(q, ids.take(k)) is Err,
    ensures
        read_bids_spec(q, ids) == read_bids_spec(q, ids.take(k)),
    decreases ids.len(),
{
    if k < ids.len() {
        assert(ids.drop_last().take(k) =~= ids.take(k));
        lemma_read_bids_stuck(q, ids.drop_last(), k);
    } else {
        assert(ids.take(k) =~= ids);
    }
}

/// The bids with the ids `ids` (see `read_bids_spec`).
pub fn read_bids(queue: &Queue, ids: &Vec<u128>) -> (r: Result<Vec<Bid>, LiqQueueError>)
    ensures
        match read_bids_spec(queue@, ids@) {
            Ok(bids) => r matches Ok(v) && v@ == bids,
            Err(e) => r == Err::<Vec<Bid>, LiqQueueError>(e),
        },
{
    let mut bids: Vec<Bid> = Vec::new();
    let mut k: usize = 0;
    assert(ids@.take(0) =~= Seq::<u128>::empty());
    while k < ids.len()
        invariant
            k <= ids.len(),
            read_bids_spec(queue@, ids@.take(k as int)) == Ok::<Seq<Bid>, LiqQueueError>(bids@),
        decreases ids.len() - k,
    {
        assert(ids@.take(k + 1).drop_last() =~= ids@.take(k as int));
        assert(ids@.take(k + 1).last() == ids@[k as int]);
        match read_bid(queue, ids[k]) {
            Ok(b) => bids.push(b),
            Err(e) => {
                proof { lemma_read_bids_stuck(queue@, ids@, k + 1); }
                return Err(e);
            },
        }
        k = k + 1;
    }
    assert(ids@.take(ids.len() as int) =~= ids@);
    Ok(bids)
}

/// Copies of the slots.
pub fn copy_slots(slots: &Vec<PremiumSlot>) -> (r: Vec<PremiumSlot>)
    ensures
        r@.map_values(|s: PremiumSlot| s@) == slots@.map_values(|s: PremiumSlot| s@),
{
    let mut r: Vec<PremiumSlot> = Vec::new();
    let mut k: usize = 0;
    while k < slots.len()
        invariant
            k <= slots.len(),
            r@.map_values(|s: PremiumSlot| s@) == slots@.map_values(|s: PremiumSlot| s@).take(k as int),
        decreases slots.len() - k,
    {
        let ghost before = r@;
        r.push(slots[k].copy());
        assert(r@.map_values(|s: PremiumSlot| s@) =~= before.map_values(|s: PremiumSlot| s@).push(slots@[k as int]@));
        assert(slots@.map_values(|s: PremiumSlot| s@).take(k + 1) =~= slots@.map_values(|s: PremiumSlot| s@).take(k as int).push(slots@[k as int]@));
        k = k + 1;
    }
    assert(slots@.map_values(|s: PremiumSlot| s@).take(slots.len() as int) =~= slots@.map_values(|s: PremiumSlot| s@));
    r
}

} // verus!
