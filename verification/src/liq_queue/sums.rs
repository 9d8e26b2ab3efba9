//! The reward sums recorded per (collateral, premium, epoch, scale).
//!
//! Each liquidation of a slot records the slot's running sum under its
//! current epoch and scale; a bid later reads the sums of its own epoch and
//! scale (and the next scale) to learn how much collateral it earned.
use vstd::prelude::*;
use crate::decimal256::Decimal256;

verus! {

/// One recorded sum.
pub struct ScaleSumEntry {
    pub bid_for: String,
    pub premium: u8,
    pub epoch: u128,
    pub scale: u128,
    pub sum: Decimal256,
}

/// Whether the entry is recorded under the given key.
pub open spec fn entry_matches(e: ScaleSumEntry, bid_for: Seq<char>, premium: u8, epoch: u128, scale: u128) -> bool {
    &&& e.bid_for@ == bid_for
    &&& e.premium == premium
    &&& e.epoch == epoch
    &&& e.scale == scale
}

/// The sum last recorded under the key, if any.
pub open spec fn lookup(entries: Seq<ScaleSumEntry>, bid_for: Seq<char>, premium: u8, epoch: u128, scale: u128) -> Option<Decimal256>
    decreases entries.len(),
{
    if entries.len() == 0 {
        None
    } else if entry_matches(entries.last(), bid_for, premium, epoch, scale) {
        Some(entries.last().sum)
    } else {
        lookup(entries.drop_last(), bid_for, premium, epoch, scale)
    }
}

/// The store of recorded sums: a later record under a key replaces an earlier one.
pub struct ScaleSums {
    pub entries: Vec<ScaleSumEntry>,
}

impl ScaleSums {
    pub open spec fn get(&self, bid_for: Seq<char>, premium: u8, epoch: u128, scale: u128) -> Option<Decimal256> {
        lookup(self.entries@, bid_for, premium, epoch, scale)
    }

    pub fn new() -> (r: ScaleSums)
        ensures
            forall|b: Seq<char>, p: u8, e: u128, s: u128| r.get(b, p, e, s) is None,
    {
        ScaleSums { entries: Vec::new() }
    }

    /// Record `sum` under the key.
    pub fn store_epoch_scale_sum(&mut self, bid_for: &String, premium: u8, epoch: u128, scale: u128, sum: Decimal256)
        ensures
            final(self).get(bid_for@, premium, epoch, scale) == Some(sum),
            forall|b: Seq<char>, p: u8, e: u128, s: u128|
                !(b == bid_for@ && p == premium && e == epoch && s == scale)
                ==> #[trigger] final(self).get(b, p, e, s) == old(self).get(b, p, e, s),
    {
        let entry = ScaleSumEntry { bid_for: bid_for.clone(), premium, epoch, scale, sum };
        let ghost before = self.entries@;
        self.entries.push(entry);
        assert(self.entries@.drop_last() =~= before);
    }

    /// The sum recorded under the key, if any.
    pub fn read_epoch_scale_sum(&self, bid_for: &String, premium: u8, epoch: u128, scale: u128) -> (r: Option<Decimal256>)
        ensures
            r == self.get(bid_for@, premium, epoch, scale),
    {
        let mut i = self.entries.len();
        assert(self.entries@.take(i as int) =~= self.entries@);
        while i > 0
            invariant
                i <= self.entries@.len(),
                lookup(self.entries@, bid_for@, premium, epoch, scale)
                    == lookup(self.entries@.take(i as int), bid_for@, premium, epoch, scale),
            decreases i,
        {
            let e = &self.entries[i - 1];
            assert(self.entries@.take(i as int).drop_last() =~= self.entries@.take(i - 1));
            assert(self.entries@.take(i as int).last() == self.entries@[i - 1]);
            if e.premium == premium && e.epoch == epoch && e.scale == scale && e.bid_for == *bid_for {
                return Some(e.sum);
            }
            i = i - 1;
        }
        assert(self.entries@.take(0) =~= Seq::<ScaleSumEntry>::empty());
        None
    }
}

} // verus!
