//! Launch bookkeeping: the system's contracts are instantiated one after
//! another, each reply recording the new contract's address and naming the
//! next to instantiate; the denoms and the credit pools created on the way
//! are recorded too.
pub mod replies;
pub mod steps;

use vstd::prelude::*;
use vstd::utf8::encode_utf8;
use vstd::string::StringSliceAdditionalSpecFns;
use crate::liquidity_check::PoolType;

verus! {

/// Pool ids of the three credit pools created at launch.
#[derive(Debug)]
pub struct CreditPools {
    pub stableswap: u64,
    pub atom: u64,
    pub osmo: u64,
}

impl CreditPools {
    /// The pool ids in the order stableswap, atom, osmo.
    pub fn to_vec(&self) -> (ids: Vec<u64>)
        ensures
            ids@ == seq![self.stableswap, self.atom, self.osmo],
    {
        vec![self.stableswap, self.atom, self.osmo]
    }

    /// Record a balancer pool: the OSMO pool replies first, then the ATOM
    /// pool.
    pub fn save_balancer_pool(&mut self, pool_id: u64)
        ensures
            final(self).stableswap == old(self).stableswap,
            old(self).osmo == 0 ==> final(self).osmo == pool_id && final(self).atom == old(self).atom,
            old(self).osmo != 0 ==> final(self).atom == pool_id && final(self).osmo == old(self).osmo,
    {
        if self.osmo == 0 {
            self.osmo = pool_id;
        } else {
            self.atom = pool_id;
        }
    }

    /// The kinds of the credit pools, in the order of `to_vec`: the first is
    /// the stableswap pool, the others are balancer pools.
    pub fn credit_pool_infos(&self) -> (r: Vec<PoolType>)
        ensures
            r@ == seq![PoolType::StableSwap { pool_id: self.stableswap }, PoolType::Balancer { pool_id: self.atom },
                PoolType::Balancer { pool_id: self.osmo }],
    {
        let ids = self.to_vec();
        let mut out: Vec<PoolType> = Vec::new();
        let mut i: usize = 0;
        while i < ids.len()
            invariant
                i <= ids.len(),
                ids@ == seq![self.stableswap, self.atom, self.osmo],
                out@.len() == i,
                forall|k: int| 0 <= k < i ==> out@[k] == (if k == 0 { PoolType::StableSwap { pool_id: ids@[k] } }
                    else { PoolType::Balancer { pool_id: ids@[k] } }),
            decreases ids.len() - i,
        {
            if i == 0 {
                out.push(PoolType::StableSwap { pool_id: ids[i] });
            } else {
                out.push(PoolType::Balancer { pool_id: ids[i] });
            }
            i = i + 1;
        }
        assert(out@ =~= seq![PoolType::StableSwap { pool_id: self.stableswap }, PoolType::Balancer { pool_id: self.atom },
            PoolType::Balancer { pool_id: self.osmo }]);
        out
    }
}

/// A contract of the system, in the order the launch instantiates them.
#[derive(Clone, Copy, PartialEq, Eq, Structural, Debug)]
pub enum LaunchContract {
    OsmosisProxy,
    Oracle,
    Staking,
    Vesting,
    Governance,
    Positions,
    StabilityPool,
    LiqQueue,
    LiquidityCheck,
    DiscountVault,
    SystemDiscounts,
    MbrnAuction,
}

/// The contract instantiated after `c`, if any.
pub open spec fn next_contract(c: LaunchContract) -> Option<LaunchContract> {
    match c {
        LaunchContract::OsmosisProxy => Some(LaunchContract::Oracle),
        LaunchContract::Oracle => Some(LaunchContract::Staking),
        LaunchContract::Staking => Some(LaunchContract::Vesting),
        LaunchContract::Vesting => Some(LaunchContract::Governance),
        LaunchContract::Governance => Some(LaunchContract::Positions),
        LaunchContract::Positions => Some(LaunchContract::StabilityPool),
        LaunchContract::StabilityPool => Some(LaunchContract::LiqQueue),
        LaunchContract::LiqQueue => Some(LaunchContract::LiquidityCheck),
        LaunchContract::LiquidityCheck => Some(LaunchContract::DiscountVault),
        LaunchContract::DiscountVault => Some(LaunchContract::SystemDiscounts),
        LaunchContract::SystemDiscounts => Some(LaunchContract::MbrnAuction),
        LaunchContract::MbrnAuction => None,
    }
}

/// The addresses of the contracts instantiated so far (empty until then).
#[derive(Debug)]
pub struct LaunchAddrs {
    pub osmosis_proxy: String,
    pub oracle: String,
    pub staking: String,
    pub vesting: String,
    pub governance: String,
    pub positions: String,
    pub stability_pool: String,
    pub liq_queue: String,
    pub liquidity_check: String,
    pub discount_vault: String,
    pub system_discounts: String,
    pub mbrn_auction: String,
}

/// The address recorded for `c`.
pub open spec fn addr_of(a: LaunchAddrs, c: LaunchContract) -> Seq<char> {
    match c {
        LaunchContract::OsmosisProxy => a.osmosis_proxy@,
        LaunchContract::Oracle => a.oracle@,
        LaunchContract::Staking => a.staking@,
        LaunchContract::Vesting => a.vesting@,
        LaunchContract::Governance => a.governance@,
        LaunchContract::Positions => a.positions@,
        LaunchContract::StabilityPool => a.stability_pool@,
        LaunchContract::LiqQueue => a.liq_queue@,
        LaunchContract::LiquidityCheck => a.liquidity_check@,
        LaunchContract::DiscountVault => a.discount_vault@,
        LaunchContract::SystemDiscounts => a.system_discounts@,
        LaunchContract::MbrnAuction => a.mbrn_auction@,
    }
}

/// An attribute of an event.
#[derive(Debug)]
pub struct EventAttribute {
    pub key: String,
    pub value: String,
}

/// An event of a reply.
#[derive(Debug)]
pub struct Event {
    pub ty: String,
    pub attributes: Vec<EventAttribute>,
}

/// Why a launch step failed.
#[derive(Debug)]
pub enum LaunchError {
    /// The submessage replied with an error.
    ReplyFailed { msg: String },
    /// No event of the reply names a contract address.
    NoInstantiateEvent,
    /// Fewer than the two denoms were created.
    MissingDenoms,
    /// The contract holds no pool shares.
    NoPoolShares,
    /// Only the owner may change the configuration.
    Unauthorized,
}

/// The key of the attribute that names an instantiated contract.
pub open spec fn address_key() -> Seq<char> {
    "contract_address"@
}

/// The index of the first attribute keyed `contract_address`.
pub open spec fn address_attr(attrs: Seq<EventAttribute>) -> Option<int>
    decreases attrs.len(),
{
    if attrs.len() == 0 {
        None
    } else {
        match address_attr(attrs.drop_last()) {
            Some(k) => Some(k),
            None => if attrs.last().key@ == address_key() { Some(attrs.len() - 1) } else { None },
        }
    }
}

/// The index of the first event with an attribute keyed `contract_address`.
pub open spec fn address_event(events: Seq<Event>) -> Option<int>
    decreases events.len(),
{
    if events.len() == 0 {
        None
    } else {
        match address_event(events.drop_last()) {
            Some(k) => Some(k),
            None => if address_attr(events.last().attributes@) is Some { Some(events.len() - 1) } else { None },
        }
    }
}

/// The address an instantiation reply names: the value of the first
/// `contract_address` attribute of the first event that has one.
pub open spec fn named_address(events: Seq<Event>) -> Option<Seq<char>> {
    match address_event(events) {
        Some(e) => Some(events[e].attributes@[address_attr(events[e].attributes@)->0].value@),
        None => None,
    }
}

proof fn lemma_address_attr(attrs: Seq<EventAttribute>)
    ensures
        address_attr(attrs) matches Some(k) ==> 0 <= k < attrs.len(),
    decreases attrs.len(),
{
    if attrs.len() > 0 {
        lemma_address_attr(attrs.drop_last());
    }
}

proof fn lemma_address_attr_prefix(attrs: Seq<EventAttribute>, i: int)
    requires
        0 <= i < attrs.len(),
        address_attr(attrs.take(i)) is None,
        attrs[i].key@ == address_key(),
    ensures
        address_attr(attrs) == Some(i),
    decreases attrs.len(),
{
    if i < attrs.len() - 1 {
        assert(attrs.drop_last().take(i) =~= attrs.take(i));
        lemma_address_attr_prefix(attrs.drop_last(), i);
        assert(attrs.drop_last()[i] == attrs[i]);
    } else {
        assert(attrs.drop_last() =~= attrs.take(i));
    }
}

proof fn lemma_address_event_prefix(events: Seq<Event>, i: int)
    requires
        0 <= i < events.len(),
        address_event(events.take(i)) is None,
        address_attr(events[i].attributes@) is Some,
    ensures
        address_event(events) == Some(i),
    decreases events.len(),
{
    if i < events.len() - 1 {
        assert(events.drop_last().take(i) =~= events.take(i));
        lemma_address_event_prefix(events.drop_last(), i);
        assert(events.drop_last()[i] == events[i]);
    } else {
        assert(events.drop_last() =~= events.take(i));
    }
}

/// The index of the first attribute keyed `contract_address`.
fn find_address_attr(attrs: &Vec<EventAttribute>) -> (r: Option<usize>)
    ensures
        match r {
            Some(k) => address_attr(attrs@) == Some(k as int),
            None => address_attr(attrs@) is None,
        },
{
    let key = String::from_str("contract_address");
    let mut i: usize = 0;
    while i < attrs.len()
        invariant
            i <= attrs.len(),
            key@ == address_key(),
            address_attr(attrs@.take(i as int)) is None,
        decreases attrs.len() - i,
    {
        assert(attrs@.take(i + 1).drop_last() =~= attrs@.take(i as int));
        if attrs[i].key == key {
            proof { lemma_address_attr_prefix(attrs@, i as int); }
            return Some(i);
        }
        assert(attrs@.take(i + 1).last() == attrs@[i as int]);
        i = i + 1;
    }
    assert(attrs@.take(attrs.len() as int) =~= attrs@);
    None
}

/// The address an instantiation reply names (see `named_address`).
pub fn instantiated_address(events: &Vec<Event>) -> (r: Result<String, LaunchError>)
    ensures
        match named_address(events@) {
            Some(a) => r matches Ok(s) && s@ == a,
            None => r matches Err(LaunchError::NoInstantiateEvent),
        },
{
    let mut i: usize = 0;
    while i < events.len()
        invariant
            i <= events.len(),
            address_event(events@.take(i as int)) is None,
        decreases events.len() - i,
    {
        assert(events@.take(i + 1).drop_last() =~= events@.take(i as int));
        if let Some(k) = find_address_attr(&events[i].attributes) {
            proof {
                lemma_address_event_prefix(events@, i as int);
                lemma_address_attr(events@[i as int].attributes@);
            }
            return Ok(events[i].attributes[k].value.clone());
        }
        assert(events@.take(i + 1).last() == events@[i as int]);
        i = i + 1;
    }
    assert(events@.take(events.len() as int) =~= events@);
    Err(LaunchError::NoInstantiateEvent)
}

impl LaunchAddrs {
    /// No contract instantiated yet.
    pub fn new() -> (r: LaunchAddrs)
        ensures
            forall|c: LaunchContract| addr_of(r, c) == Seq::<char>::empty(),
    {
        LaunchAddrs {
            osmosis_proxy: String::new(),
            oracle: String::new(),
            staking: String::new(),
            vesting: String::new(),
            governance: String::new(),
            positions: String::new(),
            stability_pool: String::new(),
            liq_queue: String::new(),
            liquidity_check: String::new(),
            discount_vault: String::new(),
            system_discounts: String::new(),
            mbrn_auction: String::new(),
        }
    }

    /// Record `address` as that of contract `c`.
    pub fn record(&mut self, c: LaunchContract, address: String)
        ensures
            addr_of(*final(self), c) == address@,
            forall|o: LaunchContract| o != c ==> addr_of(*final(self), o) == addr_of(*old(self), o),
    {
        match c {
            LaunchContract::OsmosisProxy => self.osmosis_proxy = address,
            LaunchContract::Oracle => self.oracle = address,
            LaunchContract::Staking => self.staking = address,
            LaunchContract::Vesting => self.vesting = address,
            LaunchContract::Governance => self.governance = address,
            LaunchContract::Positions => self.positions = address,
            LaunchContract::StabilityPool => self.stability_pool = address,
            LaunchContract::LiqQueue => self.liq_queue = address,
            LaunchContract::LiquidityCheck => self.liquidity_check = address,
            LaunchContract::DiscountVault => self.discount_vault = address,
            LaunchContract::SystemDiscounts => self.system_discounts = address,
            LaunchContract::MbrnAuction => self.mbrn_auction = address,
        }
    }

    /// Handle the reply to the instantiation of contract `c`: record the
    /// address it names, and answer the contract to instantiate next.
    pub fn handle_instantiate_reply(&mut self, c: LaunchContract, result: Result<Vec<Event>, String>)
        -> (r: Result<Option<LaunchContract>, LaunchError>)
        ensures
            r is Err ==> forall|o: LaunchContract| addr_of(*final(self), o) == addr_of(*old(self), o),
            match result {
                Err(m) => r matches Err(LaunchError::ReplyFailed { msg }) && msg == m,
                Ok(events) => match named_address(events@) {
                    None => r matches Err(LaunchError::NoInstantiateEvent),
                    Some(a) => r == Ok::<Option<LaunchContract>, LaunchError>(next_contract(c))
                        && addr_of(*final(self), c) == a
                        && forall|o: LaunchContract| o != c ==> addr_of(*final(self), o) == addr_of(*old(self), o),
                },
            },
    {
        let events = match result {
            Ok(e) => e,
            Err(m) => return Err(LaunchError::ReplyFailed { msg: m }),
        };
        let address = instantiated_address(&events)?;
        self.record(c, address);
        Ok(next_of(c))
    }

    /// The contracts whose admin becomes governance once it exists, each
    /// with the new admin: the osmosis proxy, the oracle, staking, vesting
    /// and governance itself.
    pub fn admin_handover(&self) -> (r: Vec<(String, String)>)
        ensures
            r@.len() == 5,
            forall|k: int| 0 <= k < 5 ==> (#[trigger] r@[k]).1@ == self.governance@,
            r@[0].0@ == self.osmosis_proxy@,
            r@[1].0@ == self.oracle@,
            r@[2].0@ == self.staking@,
            r@[3].0@ == self.vesting@,
            r@[4].0@ == self.governance@,
    {
        let mut out: Vec<(String, String)> = Vec::new();
        out.push((self.osmosis_proxy.clone(), self.governance.clone()));
        out.push((self.oracle.clone(), self.governance.clone()));
        out.push((self.staking.clone(), self.governance.clone()));
        out.push((self.vesting.clone(), self.governance.clone()));
        out.push((self.governance.clone(), self.governance.clone()));
        out
    }
}

/// An owner of the osmosis proxy, who may mint: a liquidity multiplier and a
/// Stability Pool ratio (decimals by their atomics) where set.
#[derive(Debug)]
pub struct ProxyOwner {
    pub owner: String,
    pub liquidity_multiplier: Option<u128>,
    pub stability_pool_ratio: Option<u128>,
    pub non_token_contract_auth: bool,
}

impl LaunchAddrs {
    /// The owners the osmosis proxy gets once the debt auction exists: the
    /// positions contract (10x liquidity multiplier, no Stability Pool
    /// share), vesting, staking, the Stability Pool, governance (with full
    /// authority over non-token contracts) and the debt auction.
    pub fn proxy_owners(&self) -> (r: Vec<ProxyOwner>)
        ensures
            r@.len() == 6,
            r@[0].owner@ == self.positions@ && r@[0].liquidity_multiplier == Some(10_000_000_000_000_000_000u128)
                && r@[0].stability_pool_ratio == Some(0u128) && !r@[0].non_token_contract_auth,
            r@[1].owner@ == self.vesting@,
            r@[2].owner@ == self.staking@,
            r@[3].owner@ == self.stability_pool@,
            r@[4].owner@ == self.governance@ && r@[4].non_token_contract_auth,
            r@[5].owner@ == self.mbrn_auction@,
            forall|k: int| 1 <= k < 6 ==> (#[trigger] r@[k]).liquidity_multiplier is None && r@[k].stability_pool_ratio is None,
            forall|k: int| 1 <= k < 6 && k != 4 ==> !(#[trigger] r@[k]).non_token_contract_auth,
    {
        let mut out: Vec<ProxyOwner> = Vec::new();
        out.push(ProxyOwner { owner: self.positions.clone(), liquidity_multiplier: Some(10_000_000_000_000_000_000u128),
            stability_pool_ratio: Some(0), non_token_contract_auth: false });
        out.push(ProxyOwner { owner: self.vesting.clone(), liquidity_multiplier: None, stability_pool_ratio: None,
            non_token_contract_auth: false });
        out.push(ProxyOwner { owner: self.staking.clone(), liquidity_multiplier: None, stability_pool_ratio: None,
            non_token_contract_auth: false });
        out.push(ProxyOwner { owner: self.stability_pool.clone(), liquidity_multiplier: None, stability_pool_ratio: None,
            non_token_contract_auth: false });
        out.push(ProxyOwner { owner: self.governance.clone(), liquidity_multiplier: None, stability_pool_ratio: None,
            non_token_contract_auth: true });
        out.push(ProxyOwner { owner: self.mbrn_auction.clone(), liquidity_multiplier: None, stability_pool_ratio: None,
            non_token_contract_auth: false });
        out
    }
}

/// The contract instantiated after `c`, if any (see `next_contract`).
pub fn next_of(c: LaunchContract) -> (r: Option<LaunchContract>)
    ensures
        r == next_contract(c),
{
    match c {
        LaunchContract::OsmosisProxy => Some(LaunchContract::Oracle),
        LaunchContract::Oracle => Some(LaunchContract::Staking),
        LaunchContract::Staking => Some(LaunchContract::Vesting),
        LaunchContract::Vesting => Some(LaunchContract::Governance),
        LaunchContract::Governance => Some(LaunchContract::Positions),
        LaunchContract::Positions => Some(LaunchContract::StabilityPool),
        LaunchContract::StabilityPool => Some(LaunchContract::LiqQueue),
        LaunchContract::LiqQueue => Some(LaunchContract::LiquidityCheck),
        LaunchContract::LiquidityCheck => Some(LaunchContract::DiscountVault),
        LaunchContract::DiscountVault => Some(LaunchContract::SystemDiscounts),
        LaunchContract::SystemDiscounts => Some(LaunchContract::MbrnAuction),
        LaunchContract::MbrnAuction => None,
    }
}

/// The denoms created through the osmosis proxy: the credit token first,
/// then MBRN.
pub fn save_denoms(denoms: &Vec<String>) -> (r: Result<(String, String), LaunchError>)
    ensures
        denoms@.len() >= 2 ==> (r matches Ok((credit, mbrn)) && credit == denoms@[0] && mbrn == denoms@[1]),
        denoms@.len() < 2 ==> r matches Err(LaunchError::MissingDenoms),
{
    if denoms.len() < 2 {
        return Err(LaunchError::MissingDenoms);
    }
    Ok((denoms[0].clone(), denoms[1].clone()))
}

/// The UTF-8 bytes of `gamm`, which pool share denoms contain.
pub open spec fn gamm_bytes() -> Seq<u8> {
    seq![103u8, 97u8, 109u8, 109u8]
}

/// Whether the UTF-8 bytes of the denom contain `gamm`.
pub open spec fn is_pool_share(denom: Seq<char>) -> bool {
    exists|i: int| 0 <= i && i + 4 <= encode_utf8(denom).len() && #[trigger] encode_utf8(denom).subrange(i, i + 4) == gamm_bytes()
}

/// Whether the bytes contain `gamm`.
fn contains_gamm(b: &[u8]) -> (r: bool)
    ensures
        r == exists|i: int| 0 <= i && i + 4 <= b@.len() && #[trigger] b@.subrange(i, i + 4) == gamm_bytes(),
{
    if b.len() < 4 {
        return false;
    }
    let mut i: usize = 0;
    while i < b.len() - 3
        invariant
            b@.len() >= 4,
            i <= b@.len() - 3,
            forall|j: int| 0 <= j < i ==> #[trigger] b@.subrange(j, j + 4) != gamm_bytes(),
        decreases b.len() - i,
    {
        if b[i] == 103u8 && b[i + 1] == 97u8 && b[i + 2] == 109u8 && b[i + 3] == 109u8 {
            assert(b@.subrange(i as int, i + 4) =~= gamm_bytes());
            return true;
        }
        assert(b@.subrange(i as int, i + 4)[0] == b@[i as int]);
        assert(b@.subrange(i as int, i + 4)[1] == b@[i + 1]);
        assert(b@.subrange(i as int, i + 4)[2] == b@[i + 2]);
        assert(b@.subrange(i as int, i + 4)[3] == b@[i + 3]);
        i = i + 1;
    }
    false
}

/// The first of the balances (denom, amount) whose denom is a pool share,
/// which is sent to governance.
pub fn find_pool_share(balances: &Vec<(String, u128)>) -> (r: Result<(String, u128), LaunchError>)
    ensures
        match r {
            Ok((d, a)) => exists|k: int| 0 <= k < balances@.len() && balances@[k] == (d, a) && is_pool_share(d@)
                && forall|j: int| 0 <= j < k ==> !is_pool_share((#[trigger] balances@[j]).0@),
            Err(e) => e is NoPoolShares && forall|j: int| 0 <= j < balances@.len() ==> !is_pool_share((#[trigger] balances@[j]).0@),
        },
{
    let mut i: usize = 0;
    while i < balances.len()
        invariant
            i <= balances.len(),
            forall|j: int| 0 <= j < i ==> !is_pool_share((#[trigger] balances@[j]).0@),
        decreases balances.len() - i,
    {
        let s = balances[i].0.as_str();
        if contains_gamm(s.as_bytes()) {
            return Ok((balances[i].0.clone(), balances[i].1));
        }
        i = i + 1;
    }
    Err(LaunchError::NoPoolShares)
}

} // verus!
