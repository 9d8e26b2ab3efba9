//! The product-sum distribution of liquidations among the bids of a slot
//! (scalable reward distribution with compounding stakes): each
//! liquidation scales the slot's running product by the share of the bids
//! left and adds the collateral earned per unit of bid to the running sum.
use vstd::prelude::*;
use crate::math::{Uint256, fraction};
use crate::decimal256::Decimal256;
use crate::liq_queue::arith::{o_add, o_sub, o_mul, o_from_int, o_dmul, o_ddiv, o_dmul_int, pow10, o_pow10, lemma_pow10_mono};
use crate::liq_queue::types::{Bid, PremiumSlot, PriceResponse256, LiqQueueError};
use crate::liq_queue::sums::ScaleSums;

verus! {

/// The factor by which a product that would truncate is rescaled (10^9).
pub open spec fn scale_factor() -> nat {
    1_000_000_000nat
}

/// `10^decimals` as a `Uint256`, or `None` where it does not fit a `u128`.
pub fn pow10_u256(decimals: u64) -> (r: Option<Uint256>)
    ensures
        r is Some <==> o_pow10(decimals as nat) is Some,
        r matches Some(p) ==> p.value() == pow10(decimals as nat),
{
    let mut p: u128 = 1;
    let mut i: u64 = 0;
    while i < decimals
        invariant
            i <= decimals,
            p as nat == pow10(i as nat),
        decreases decimals - i,
    {
        if p > 34028236692093846346337460743176821145u128 {
            proof {
                assert(pow10((i + 1) as nat) == 10 * pow10(i as nat));
                lemma_pow10_mono((i + 1) as nat, decimals as nat);
            }
            return None;
        }
        p = p * 10;
        i = i + 1;
        assert(pow10(i as nat) == 10 * pow10((i - 1) as nat));
    }
    Some(Uint256::from_u128(p))
}

/// The value of `amount` atomic units of an asset priced at `price` with
/// `decimals` places: `amount / 10^decimals * price`.
pub open spec fn price_value(price: nat, decimals: u64, amount: nat) -> Option<nat> {
    if let Some(p) = o_pow10(decimals as nat) {
        if let Some(ratio) = o_ddiv(amount, p) {
            o_dmul(ratio, price)
        } else {
            None
        }
    } else {
        None
    }
}

/// The number of atomic units worth `value`: `value / price * 10^decimals`.
pub open spec fn price_amount(price: nat, decimals: u64, value: nat) -> Option<nat> {
    if let Some(p) = o_pow10(decimals as nat) {
        if let Some(units) = o_ddiv(value, price) {
            o_dmul_int(units, p)
        } else {
            None
        }
    } else {
        None
    }
}

impl PriceResponse256 {
    pub open spec fn spec_value(&self, amount: nat) -> Option<nat> {
        price_value(self.price.v(), self.decimals, amount)
    }

    pub open spec fn spec_amount(&self, value: nat) -> Option<nat> {
        price_amount(self.price.v(), self.decimals, value)
    }

    pub fn get_value(&self, amount: Uint256) -> (r: Option<Decimal256>)
        ensures
            r is Some <==> self.spec_value(amount.value()) is Some,
            r matches Some(v) ==> self.spec_value(amount.value()) == Some(v.v()),
    {
        let p = match pow10_u256(self.decimals) {
            Some(p) => p,
            None => return None,
        };
        let ratio = match Decimal256::from_atomics(amount).checked_div(Decimal256::from_atomics(p)) {
            Some(r) => r,
            None => return None,
        };
        ratio.checked_mul(self.price)
    }

    pub fn get_amount(&self, value: Decimal256) -> (r: Option<Uint256>)
        ensures
            r is Some <==> self.spec_amount(value.v()) is Some,
            r matches Some(a) ==> self.spec_amount(value.v()) == Some(a.value()),
    {
        let p = match pow10_u256(self.decimals) {
            Some(p) => p,
            None => return None,
        };
        let units = match value.checked_div(self.price) {
            Some(u) => u,
            None => return None,
        };
        units.mul_uint(p)
    }
}

/// The remaining amount of a bid, as a decimal, given the slot's and the
/// bid's epochs, scales and products.
pub open spec fn remaining_bid_dec(
    amount: nat,
    slot_product: nat,
    bid_product: nat,
    scale_diff: nat,
    epoch_diff: nat,
) -> Option<nat> {
    if epoch_diff != 0 || scale_diff > 1 {
        Some(0)
    } else if let Some(d) = o_from_int(amount) {
        if let Some(m) = o_dmul(d, slot_product) {
            if let Some(q) = o_ddiv(m, bid_product) {
                if scale_diff == 0 { Some(q) } else { Some(q / scale_factor()) }
            } else {
                None
            }
        } else {
            None
        }
    } else {
        None
    }
}

/// Split a decimal into its integer part and its fractional residue.
pub fn split_decimal(d: Decimal256) -> (r: (Uint256, Decimal256))
    ensures
        r.0.value() == d.v() / fraction(),
        r.1.v() == d.v() % fraction(),
{
    let one = Uint256::one();
    proof {
        d.atomics.lemma_bound();
    }
    let whole = match d.mul_uint(one) {
        Some(w) => w,
        None => {
            assert(false);
            return (one, d);
        },
    };
    proof {
        assert(whole.value() * fraction() <= d.v()) by (nonlinear_arith)
            requires
                whole.value() == (1 * d.v()) / fraction(),
                fraction() == 1_000_000_000_000_000_000nat,
        ;
    }
    let whole_dec = match Decimal256::from_uint256(whole) {
        Some(w) => w,
        None => {
            assert(false);
            return (one, d);
        },
    };
    let residue = match d.checked_sub(whole_dec) {
        Some(r) => r,
        None => {
            assert(false);
            return (one, d);
        },
    };
    proof {
        assert(d.v() - (d.v() / fraction()) * fraction() == d.v() % fraction()) by (nonlinear_arith)
            requires
                fraction() == 1_000_000_000_000_000_000nat,
        ;
    }
    (whole, residue)
}

/// The remaining amount of an active bid and the fractional residue left
/// when it is rounded down.
pub fn calculate_remaining_bid(bid: &Bid, slot: &PremiumSlot) -> (r: Result<(Uint256, Decimal256), LiqQueueError>)
    ensures
        (slot.current_scale < bid.scale_snapshot || slot.current_epoch < bid.epoch_snapshot)
            <==> r == Err::<(Uint256, Decimal256), LiqQueueError>(LiqQueueError::SnapshotAhead),
        r matches Err(e) ==> (e is SnapshotAhead || e is MathError),
        !(slot.current_scale < bid.scale_snapshot || slot.current_epoch < bid.epoch_snapshot) ==> {
            let dec = remaining_bid_dec(
                bid.amount.value(),
                slot.product_snapshot.v(),
                bid.product_snapshot.v(),
                (slot.current_scale - bid.scale_snapshot) as nat,
                (slot.current_epoch - bid.epoch_snapshot) as nat,
            );
            &&& (r is Ok <==> dec is Some)
            &&& (r matches Ok((whole, residue)) ==> {
                &&& whole.value() == dec.unwrap() / fraction()
                &&& residue.v() == dec.unwrap() % fraction()
            })
        },
{
    if slot.current_scale < bid.scale_snapshot || slot.current_epoch < bid.epoch_snapshot {
        return Err(LiqQueueError::SnapshotAhead);
    }
    let scale_diff = slot.current_scale - bid.scale_snapshot;
    let epoch_diff = slot.current_epoch - bid.epoch_snapshot;
    let dec = if epoch_diff != 0 || scale_diff > 1 {
        Decimal256::zero()
    } else {
        let d = match Decimal256::from_uint256(bid.amount) {
            Some(d) => d,
            None => return Err(LiqQueueError::MathError),
        };
        let m = match d.checked_mul(slot.product_snapshot) {
            Some(m) => m,
            None => return Err(LiqQueueError::MathError),
        };
        let q = match m.checked_div(bid.product_snapshot) {
            Some(q) => q,
            None => return Err(LiqQueueError::MathError),
        };
        if scale_diff == 0 {
            q
        } else {
            let s = Uint256::from_u128(1_000_000_000u128);
            match q.atomics.checked_div(s) {
                Some(a) => Decimal256::from_atomics(a),
                None => return Err(LiqQueueError::MathError),
            }
        }
    };
    Ok(split_decimal(dec))
}

/// The collateral earned by a bid, as a decimal: the bid's amount times
/// the growth of the sum since its snapshot (within its scale and the next
/// one, rescaled), over the bid's product snapshot.
pub open spec fn liquidated_collateral_dec(
    amount: nat,
    bid_sum: nat,
    bid_product: nat,
    reference_sum: nat,
    next_scale_sum: Option<Decimal256>,
) -> Option<nat> {
    if let Some(first) = o_sub(reference_sum, bid_sum) {
        if let Some(second) = (match next_scale_sum {
            Some(s) => if let Some(diff) = o_sub(s.v(), reference_sum) {
                Some(diff / scale_factor())
            } else {
                None
            },
            None => Some(0nat),
        }) {
            if let Some(growth) = o_add(first, second) {
                if let Some(d) = o_from_int(amount) {
                    if let Some(m) = o_dmul(d, growth) {
                        o_ddiv(m, bid_product)
                    } else {
                        None
                    }
                } else {
                    None
                }
            } else {
                None
            }
        } else {
            None
        }
    } else {
        None
    }
}

/// The collateral that a bid has earned since its snapshot, and the
/// fractional residue left when it is rounded down.
pub fn calculate_liquidated_collateral(sums: &ScaleSums, bid: &Bid, bid_for: &String) -> (r: Result<(Uint256, Decimal256), LiqQueueError>)
    ensures
        bid.scale_snapshot == u128::MAX ==> r == Err::<(Uint256, Decimal256), LiqQueueError>(LiqQueueError::MathError),
        bid.scale_snapshot < u128::MAX ==> {
            let reference = match sums.get(bid_for@, bid.liq_premium, bid.epoch_snapshot, bid.scale_snapshot) {
                Some(s) => s.v(),
                None => 0nat,
            };
            let dec = liquidated_collateral_dec(
                bid.amount.value(),
                bid.sum_snapshot.v(),
                bid.product_snapshot.v(),
                reference,
                sums.get(bid_for@, bid.liq_premium, bid.epoch_snapshot, (bid.scale_snapshot + 1) as u128),
            );
            &&& (r is Ok <==> dec is Some)
            &&& (r matches Ok((whole, residue)) ==> {
                &&& whole.value() == dec.unwrap() / fraction()
                &&& residue.v() == dec.unwrap() % fraction()
            })
            &&& (r matches Err(e) ==> e is MathError)
        },
{
    let reference = match sums.read_epoch_scale_sum(bid_for, bid.liq_premium, bid.epoch_snapshot, bid.scale_snapshot) {
        Some(s) => s,
        None => Decimal256::zero(),
    };
    let first = match reference.checked_sub(bid.sum_snapshot) {
        Some(f) => f,
        None => return Err(LiqQueueError::MathError),
    };
    if bid.scale_snapshot == u128::MAX {
        return Err(LiqQueueError::MathError);
    }
    let second = match sums.read_epoch_scale_sum(bid_for, bid.liq_premium, bid.epoch_snapshot, bid.scale_snapshot + 1) {
        Some(next) => {
            let diff = match next.checked_sub(reference) {
                Some(d) => d,
                None => return Err(LiqQueueError::MathError),
            };
            let s = Uint256::from_u128(1_000_000_000u128);
            match diff.atomics.checked_div(s) {
                Some(a) => Decimal256::from_atomics(a),
                None => return Err(LiqQueueError::MathError),
            }
        },
        None => Decimal256::zero(),
    };
    let growth = match first.checked_add(second) {
        Some(g) => g,
        None => return Err(LiqQueueError::MathError),
    };
    let d = match Decimal256::from_uint256(bid.amount) {
        Some(d) => d,
        None => return Err(LiqQueueError::MathError),
    };
    let m = match d.checked_mul(growth) {
        Some(m) => m,
        None => return Err(LiqQueueError::MathError),
    };
    let dec = match m.checked_div(bid.product_snapshot) {
        Some(q) => q,
        None => return Err(LiqQueueError::MathError),
    };
    Ok(split_decimal(dec))
}

/// Take the whole units out of a residue: the units, and what is left.
pub fn claim_residue(residue: Decimal256) -> (r: (Uint256, Decimal256))
    ensures
        r.0.value() == residue.v() / fraction(),
        r.1.v() == residue.v() % fraction(),
{
    split_decimal(residue)
}

/// How much of the bid asset a slot pays and how much collateral it takes
/// when asked to liquidate `collateral` at `price` less the slot's premium:
/// the stable amount the collateral is worth, capped by the slot's total,
/// and whether the slot covered all of it.
pub open spec fn pool_amounts(
    total: nat,
    liq_premium: nat,
    collateral: nat,
    price: nat,
    price_decimals: u64,
    credit_price: nat,
    credit_decimals: u64,
) -> Option<(nat, nat, bool)> {
    if let Some(discount) = o_sub(fraction(), liq_premium) {
        if let Some(premium_price) = o_dmul(price, discount) {
            if let Some(value) = price_value(premium_price, price_decimals, collateral) {
                if let Some(required) = price_amount(credit_price, credit_decimals, value) {
                    if required > total {
                        if let Some(total_value) = price_value(credit_price, credit_decimals, total) {
                            if let Some(taken) = price_amount(premium_price, price_decimals, total_value) {
                                Some((total, taken, false))
                            } else {
                                None
                            }
                        } else {
                            None
                        }
                    } else {
                        Some((required, collateral, true))
                    }
                } else {
                    None
                }
            } else {
                None
            }
        } else {
            None
        }
    } else {
        None
    }
}

/// The slot's snapshots after it pays `repay` of its `total` for `taken`
/// collateral: the sum grows by the collateral per unit of bid times the
/// product; the product shrinks by the share of the bids left (rescaled by
/// 10^9 where it would fall below 10^9); a slot that pays all of its bids
/// starts a new epoch. Answers the new sum, product, scale and epoch, and
/// the sum recorded for the old epoch and scale.
pub open spec fn pool_snapshots(
    total: nat,
    sum: nat,
    product: nat,
    scale: u128,
    epoch: u128,
    repay: nat,
    taken: nat,
) -> Option<(nat, nat, u128, u128, nat)> {
    if let Some(taken_dec) = o_from_int(taken) {
        if let Some(total_dec) = o_from_int(total) {
            if let Some(repay_dec) = o_from_int(repay) {
                if let Some(col_per_bid) = o_ddiv(taken_dec, total_dec) {
                    if let Some(expense_per_bid) = o_ddiv(repay_dec, total_dec) {
                        if let Some(sum_growth) = o_dmul(product, col_per_bid) {
                            if let Some(new_sum) = o_add(sum, sum_growth) {
                                if expense_per_bid == fraction() {
                                    if epoch < u128::MAX {
                                        Some((0nat, fraction(), 0u128, (epoch + 1) as u128, new_sum))
                                    } else {
                                        None
                                    }
                                } else if let Some(factor) = o_sub(fraction(), expense_per_bid) {
                                    if let Some(new_product) = o_dmul(product, factor) {
                                        if new_product < scale_factor() {
                                            if scale < u128::MAX {
                                                if let Some(raised) = o_mul(product, scale_factor()) {
                                                    if let Some(rescaled) = o_dmul(raised, factor) {
                                                        Some((new_sum, rescaled, (scale + 1) as u128, epoch, new_sum))
                                                    } else {
                                                        None
                                                    }
                                                } else {
                                                    None
                                                }
                                            } else {
                                                None
                                            }
                                        } else {
                                            Some((new_sum, new_product, scale, epoch, new_sum))
                                        }
                                    } else {
                                        None
                                    }
                                } else {
                                    None
                                }
                            } else {
                                None
                            }
                        } else {
                            None
                        }
                    } else {
                        None
                    }
                } else {
                    None
                }
            } else {
                None
            }
        } else {
            None
        }
    } else {
        None
    }
}

/// The amounts of a slot's liquidation (see `pool_amounts`).
pub fn slot_liquidation_amounts(
    slot: &PremiumSlot,
    collateral: Uint256,
    price: &PriceResponse256,
    credit_price: &PriceResponse256,
) -> (r: Result<(Uint256, Uint256, bool), LiqQueueError>)
    ensures
        r is Ok <==> pool_amounts(slot.total_bid_amount.value(), slot.liq_premium.v(), collateral.value(),
            price.price.v(), price.decimals, credit_price.price.v(), credit_price.decimals) is Some,
        r matches Ok((repay, taken, filled)) ==> pool_amounts(slot.total_bid_amount.value(), slot.liq_premium.v(),
            collateral.value(), price.price.v(), price.decimals, credit_price.price.v(), credit_price.decimals)
            == Some((repay.value(), taken.value(), filled)),
        r matches Err(e) ==> e is MathError,
{
    let discount = match Decimal256::one().checked_sub(slot.liq_premium) {
        Some(d) => d,
        None => return Err(LiqQueueError::MathError),
    };
    let premium_price = match price.price.checked_mul(discount) {
        Some(p) => p,
        None => return Err(LiqQueueError::MathError),
    };
    let discounted = PriceResponse256 { price: premium_price, decimals: price.decimals };
    let value = match discounted.get_value(collateral) {
        Some(v) => v,
        None => return Err(LiqQueueError::MathError),
    };
    let required = match credit_price.get_amount(value) {
        Some(q) => q,
        None => return Err(LiqQueueError::MathError),
    };
    if slot.total_bid_amount.lt(&required) {
        let total_value = match credit_price.get_value(slot.total_bid_amount) {
            Some(v) => v,
            None => return Err(LiqQueueError::MathError),
        };
        let taken = match discounted.get_amount(total_value) {
            Some(t) => t,
            None => return Err(LiqQueueError::MathError),
        };
        Ok((slot.total_bid_amount, taken, false))
    } else {
        Ok((required, collateral, true))
    }
}

/// The snapshots of a slot after a liquidation (see `pool_snapshots`):
/// new sum, product, scale, epoch, and the sum to record.
pub fn slot_liquidation_snapshots(
    slot: &PremiumSlot,
    repay: Uint256,
    taken: Uint256,
) -> (r: Result<(Decimal256, Decimal256, u128, u128, Decimal256), LiqQueueError>)
    ensures
        r is Ok <==> pool_snapshots(slot.total_bid_amount.value(), slot.sum_snapshot.v(), slot.product_snapshot.v(),
            slot.current_scale, slot.current_epoch, repay.value(), taken.value()) is Some,
        r matches Ok((sum, product, scale, epoch, stored)) ==> pool_snapshots(slot.total_bid_amount.value(),
            slot.sum_snapshot.v(), slot.product_snapshot.v(), slot.current_scale, slot.current_epoch,
            repay.value(), taken.value()) == Some((sum.v(), product.v(), scale, epoch, stored.v())),
        r matches Err(e) ==> e is MathError,
{
    let taken_dec = match Decimal256::from_uint256(taken) {
        Some(d) => d,
        None => return Err(LiqQueueError::MathError),
    };
    let total_dec = match Decimal256::from_uint256(slot.total_bid_amount) {
        Some(d) => d,
        None => return Err(LiqQueueError::MathError),
    };
    let repay_dec = match Decimal256::from_uint256(repay) {
        Some(d) => d,
        None => return Err(LiqQueueError::MathError),
    };
    let col_per_bid = match taken_dec.checked_div(total_dec) {
        Some(d) => d,
        None => return Err(LiqQueueError::MathError),
    };
    let expense_per_bid = match repay_dec.checked_div(total_dec) {
        Some(d) => d,
        None => return Err(LiqQueueError::MathError),
    };
    let sum_growth = match slot.product_snapshot.checked_mul(col_per_bid) {
        Some(d) => d,
        None => return Err(LiqQueueError::MathError),
    };
    let new_sum = match slot.sum_snapshot.checked_add(sum_growth) {
        Some(d) => d,
        None => return Err(LiqQueueError::MathError),
    };
    let one = Decimal256::one();
    if expense_per_bid.eq(&one) {
        if slot.current_epoch == u128::MAX {
            return Err(LiqQueueError::MathError);
        }
        Ok((Decimal256::zero(), one, 0u128, slot.current_epoch + 1, new_sum))
    } else {
        let factor = match one.checked_sub(expense_per_bid) {
            Some(d) => d,
            None => return Err(LiqQueueError::MathError),
        };
        let new_product = match slot.product_snapshot.checked_mul(factor) {
            Some(d) => d,
            None => return Err(LiqQueueError::MathError),
        };
        let threshold = Decimal256::from_atomics(Uint256::from_u128(1_000_000_000u128));
        if new_product.lt(&threshold) {
            if slot.current_scale == u128::MAX {
                return Err(LiqQueueError::MathError);
            }
            let raised = match slot.product_snapshot.atomics.checked_mul(Uint256::from_u128(1_000_000_000u128)) {
                Some(a) => Decimal256::from_atomics(a),
                None => return Err(LiqQueueError::MathError),
            };
            let rescaled = match raised.checked_mul(factor) {
                Some(d) => d,
                None => return Err(LiqQueueError::MathError),
            };
            Ok((new_sum, rescaled, slot.current_scale + 1, slot.current_epoch, new_sum))
        } else {
            Ok((new_sum, new_product, slot.current_scale, slot.current_epoch, new_sum))
        }
    }
}

} // verus!
