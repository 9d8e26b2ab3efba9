//! The liquidation queue's data: bids, premium slots, queues and the config.
use vstd::prelude::*;
use crate::math::Uint256;
use crate::decimal256::Decimal256;

verus! {

/// An asset: a cw20 token by its contract address, or a native denom.
#[derive(Debug)]
pub enum AssetInfo {
    Token { address: String },
    NativeToken { denom: String },
}

impl AssetInfo {
    /// The storage key of the asset: its address or its denom.
    pub open spec fn key(&self) -> Seq<char> {
        match self {
            AssetInfo::Token { address } => address@,
            AssetInfo::NativeToken { denom } => denom@,
        }
    }

    /// The address or the denom.
    pub open spec fn key_string_spec(&self) -> String {
        match self {
            AssetInfo::Token { address } => *address,
            AssetInfo::NativeToken { denom } => *denom,
        }
    }

    pub fn key_string(&self) -> (s: String)
        ensures
            s@ == self.key(),
            s == self.key_string_spec(),
    {
        match self {
            AssetInfo::Token { address } => address.clone(),
            AssetInfo::NativeToken { denom } => denom.clone(),
        }
    }

    pub fn copy(&self) -> (r: AssetInfo)
        ensures
            r == *self,
    {
        match self {
            AssetInfo::Token { address } => AssetInfo::Token { address: address.clone() },
            AssetInfo::NativeToken { denom } => AssetInfo::NativeToken { denom: denom.clone() },
        }
    }

    /// Same variant and same address or denom.
    pub open spec fn same(&self, other: &AssetInfo) -> bool {
        match (self, other) {
            (AssetInfo::Token { address: a }, AssetInfo::Token { address: b }) => a@ == b@,
            (AssetInfo::NativeToken { denom: a }, AssetInfo::NativeToken { denom: b }) => a@ == b@,
            _ => false,
        }
    }

    /// Same variant and same address or denom.
    pub fn equal(&self, other: &AssetInfo) -> (r: bool)
        ensures
            r == self.same(other),
    {
        match (self, other) {
            (AssetInfo::Token { address: a }, AssetInfo::Token { address: b }) => *a == *b,
            (AssetInfo::NativeToken { denom: a }, AssetInfo::NativeToken { denom: b }) => *a == *b,
            _ => false,
        }
    }
}

/// An amount of an asset.
#[derive(Debug)]
pub struct Asset {
    pub info: AssetInfo,
    pub amount: u128,
}

/// A bid of the bid asset on one collateral, at one premium.
pub struct Bid {
    pub user: String,
    pub id: u128,
    pub amount: Uint256,
    pub liq_premium: u8,
    pub product_snapshot: Decimal256,
    pub sum_snapshot: Decimal256,
    pub pending_liquidated_collateral: Uint256,
    pub wait_end: Option<u64>,
    pub epoch_snapshot: u128,
    pub scale_snapshot: u128,
}

impl Bid {
    pub fn copy(&self) -> (r: Bid)
        ensures
            r == *self,
    {
        Bid {
            user: self.user.clone(),
            id: self.id,
            amount: self.amount,
            liq_premium: self.liq_premium,
            product_snapshot: self.product_snapshot,
            sum_snapshot: self.sum_snapshot,
            pending_liquidated_collateral: self.pending_liquidated_collateral,
            wait_end: self.wait_end,
            epoch_snapshot: self.epoch_snapshot,
            scale_snapshot: self.scale_snapshot,
        }
    }
}

/// The bids at one premium, with the running product and sum that
/// distribute liquidations among the active bids.
pub struct PremiumSlot {
    pub bids: Vec<Bid>,
    pub waiting_bids: Vec<Bid>,
    pub liq_premium: Decimal256,
    pub sum_snapshot: Decimal256,
    pub product_snapshot: Decimal256,
    pub total_bid_amount: Uint256,
    pub last_total: u64,
    pub current_epoch: u128,
    pub current_scale: u128,
    pub residue_collateral: Decimal256,
    pub residue_bid: Decimal256,
}

/// Copies of the bids, in order.
pub fn copy_bids(bids: &Vec<Bid>) -> (r: Vec<Bid>)
    ensures
        r@ == bids@,
{
    let mut r: Vec<Bid> = Vec::new();
    for i in 0..bids.len()
        invariant
            r@ == bids@.take(i as int),
    {
        r.push(bids[i].copy());
        assert(bids@.take(i + 1) =~= bids@.take(i as int).push(bids@[i as int]));
    }
    assert(bids@.take(bids.len() as int) =~= bids@);
    r
}

/// A premium slot as a mathematical value.
#[verifier::ext_equal]
pub struct SlotView {
    pub bids: Seq<Bid>,
    pub waiting_bids: Seq<Bid>,
    pub liq_premium: nat,
    pub sum_snapshot: nat,
    pub product_snapshot: nat,
    pub total_bid_amount: nat,
    pub last_total: u64,
    pub current_epoch: u128,
    pub current_scale: u128,
    pub residue_collateral: nat,
    pub residue_bid: nat,
}

impl View for PremiumSlot {
    type V = SlotView;

    open spec fn view(&self) -> SlotView {
        SlotView {
            bids: self.bids@,
            waiting_bids: self.waiting_bids@,
            liq_premium: self.liq_premium.v(),
            sum_snapshot: self.sum_snapshot.v(),
            product_snapshot: self.product_snapshot.v(),
            total_bid_amount: self.total_bid_amount.value(),
            last_total: self.last_total,
            current_epoch: self.current_epoch,
            current_scale: self.current_scale,
            residue_collateral: self.residue_collateral.v(),
            residue_bid: self.residue_bid.v(),
        }
    }
}

impl PremiumSlot {
    pub fn copy(&self) -> (r: PremiumSlot)
        ensures
            r@ == self@,
    {
        let bids = copy_bids(&self.bids);
        let waiting_bids = copy_bids(&self.waiting_bids);
        let r = PremiumSlot {
            bids,
            waiting_bids,
            liq_premium: self.liq_premium,
            sum_snapshot: self.sum_snapshot,
            product_snapshot: self.product_snapshot,
            total_bid_amount: self.total_bid_amount,
            last_total: self.last_total,
            current_epoch: self.current_epoch,
            current_scale: self.current_scale,
            residue_collateral: self.residue_collateral,
            residue_bid: self.residue_bid,
        };
        r
    }
}

/// The queue of one collateral asset: one premium slot per whole percent
/// from 0 to `max_premium`.
pub struct Queue {
    pub bid_asset: Asset,
    pub max_premium: u128,
    pub slots: Vec<PremiumSlot>,
    pub current_bid_id: u128,
    pub bid_threshold: Uint256,
}

/// A queue as a mathematical value.
#[verifier::ext_equal]
pub struct QueueView {
    pub bid_asset_info: AssetInfo,
    pub bid_asset_amount: u128,
    pub max_premium: u128,
    pub slots: Seq<SlotView>,
    pub current_bid_id: u128,
    pub bid_threshold: nat,
}

impl View for Queue {
    type V = QueueView;

    open spec fn view(&self) -> QueueView {
        QueueView {
            bid_asset_info: self.bid_asset.info,
            bid_asset_amount: self.bid_asset.amount,
            max_premium: self.max_premium,
            slots: self.slots@.map_values(|s: PremiumSlot| s@),
            current_bid_id: self.current_bid_id,
            bid_threshold: self.bid_threshold.value(),
        }
    }
}

/// The contract's configuration.
pub struct Config {
    pub owner: String,
    pub positions_contract: String,
    pub osmosis_proxy_contract: String,
    pub waiting_period: u64,
    pub added_assets: Vec<AssetInfo>,
    pub bid_asset: AssetInfo,
    pub minimum_bid: u128,
    pub maximum_waiting_bids: u64,
}

/// A coin sent along with a message.
pub struct Coin {
    pub denom: String,
    pub amount: u128,
}

/// A price and the number of decimal places of the asset it prices.
pub struct PriceResponse256 {
    pub price: Decimal256,
    pub decimals: u64,
}

/// Why an operation of the liquidation queue was refused.
#[derive(Debug)]
pub enum LiqQueueError {
    Unauthorized,
    InvalidPremium,
    InvalidAsset,
    InvalidBidThreshold,
    DuplicateQueue,
    InsufficientBids,
    InvalidWithdrawal,
    TooManyWaitingBids { max_waiting_bids: u64 },
    /// "No asset provided, only bid asset allowed"
    NoAssetProvided,
    /// "Invalid asset provided, only bid asset allowed"
    InvalidBidAssetProvided,
    /// "Bid amount too small, minimum is {minimum}"
    BidTooSmall { minimum: u128 },
    /// "Bid asset's are native assets"
    NonNativeBidAsset,
    /// "Bid not found"
    BidNotFound,
    /// The queue of the asset was never added.
    QueueNotFound,
    /// No ownership transfer was started.
    OwnershipTransferNotSet,
    /// A snapshot is ahead of its slot (a checked subtraction failed).
    SnapshotAhead,
    /// An intermediate amount did not fit its integer type, or a divisor was zero.
    MathError,
}

} // verus!
