//! Executing passed proposals, removing finished ones, and the
//! configuration.
use vstd::prelude::*;
use vstd::string::StringExecFns;
use crate::decimal::{decimal_from_str, parse_decimal};
use crate::governance::state::{Governance, Config, ProposalView, ProposalStatus, ProposalMessage, GovError, texts,
    entry_keys, id_text, id_key};
use crate::governance::entries::{entry_index, lemma_entry_index, removed, find_entry, remove_entry};
use crate::governance::voting::{replace_entry, copy_texts};

verus! {

/// The index of the first message ordered after `order`, or the length.
pub open spec fn first_after(s: Seq<(u64, Seq<u8>)>, order: u64) -> int
    decreases s.len(),
{
    if s.len() == 0 {
        0
    } else if first_after(s.drop_last(), order) < s.len() - 1 {
        first_after(s.drop_last(), order)
    } else if s.last().0 > order {
        s.len() - 1
    } else {
        s.len() as int
    }
}

/// The messages in a stable sort by their order: equal orders keep the
/// order in which they were given.
pub open spec fn sort_by_order(s: Seq<(u64, Seq<u8>)>) -> Seq<(u64, Seq<u8>)>
    decreases s.len(),
{
    if s.len() == 0 {
        Seq::empty()
    } else {
        let sorted = sort_by_order(s.drop_last());
        sorted.insert(first_after(sorted, s.last().0), s.last())
    }
}

proof fn lemma_first_after(s: Seq<(u64, Seq<u8>)>, order: u64)
    ensures
        0 <= first_after(s, order) <= s.len(),
        forall|j: int| 0 <= j < first_after(s, order) ==> #[trigger] s[j].0 <= order,
        first_after(s, order) < s.len() ==> s[first_after(s, order)].0 > order,
    decreases s.len(),
{
    if s.len() > 0 {
        lemma_first_after(s.drop_last(), order);
        assert forall|j: int| 0 <= j < first_after(s, order) implies #[trigger] s[j].0 <= order by {
            if j < s.len() - 1 {
                assert(s.drop_last()[j] == s[j]);
            }
        }
        if first_after(s.drop_last(), order) < s.len() - 1 {
            assert(s.drop_last()[first_after(s.drop_last(), order)] == s[first_after(s.drop_last(), order)]);
        }
    }
}

proof fn lemma_sort_len(s: Seq<(u64, Seq<u8>)>)
    ensures
        sort_by_order(s).len() == s.len(),
    decreases s.len(),
{
    if s.len() > 0 {
        lemma_sort_len(s.drop_last());
        lemma_first_after(sort_by_order(s.drop_last()), s.last().0);
    }
}

/// The position of the first message ordered after `order`.
fn find_first_after(v: &Vec<(u64, Vec<u8>)>, order: u64) -> (r: usize)
    ensures
        r as int == first_after(v@.map_values(|m: (u64, Vec<u8>)| (m.0, m.1@)), order),
{
    let ghost s = v@.map_values(|m: (u64, Vec<u8>)| (m.0, m.1@));
    proof { lemma_first_after(s, order); }
    let mut i: usize = 0;
    while i < v.len()
        invariant
            i <= v.len(),
            s == v@.map_values(|m: (u64, Vec<u8>)| (m.0, m.1@)),
            forall|j: int| 0 <= j < i ==> #[trigger] s[j].0 <= order,
        decreases v.len() - i,
    {
        if v[i].0 > order {
            proof { lemma_first_after_is(s, order, i as int); }
            return i;
        }
        assert(s[i as int].0 == v@[i as int].0);
        i = i + 1;
    }
    proof { lemma_first_after_is(s, order, v.len() as int); }
    i
}

proof fn lemma_first_after_is(s: Seq<(u64, Seq<u8>)>, order: u64, i: int)
    requires
        0 <= i <= s.len(),
        forall|j: int| 0 <= j < i ==> #[trigger] s[j].0 <= order,
        i < s.len() ==> s[i].0 > order,
    ensures
        first_after(s, order) == i,
{
    lemma_first_after(s, order);
    let f = first_after(s, order);
    if f < i {
        assert(s[f].0 <= order);
    }
    if i < f {
        assert(s[i].0 <= order);
    }
}

/// The messages of a proposal in a stable sort by their order.
pub fn sorted_messages(m: &Vec<ProposalMessage>) -> (r: Vec<(u64, Vec<u8>)>)
    ensures
        r@.map_values(|x: (u64, Vec<u8>)| (x.0, x.1@))
            == sort_by_order(crate::governance::state::messages_view(m@)),
{
    let ghost mv = crate::governance::state::messages_view(m@);
    let mut out: Vec<(u64, Vec<u8>)> = Vec::new();
    let mut i: usize = 0;
    assert(mv.take(0) =~= Seq::<(u64, Seq<u8>)>::empty());
    while i < m.len()
        invariant
            i <= m.len(),
            mv == crate::governance::state::messages_view(m@),
            out@.map_values(|x: (u64, Vec<u8>)| (x.0, x.1@)) == sort_by_order(mv.take(i as int)),
        decreases m.len() - i,
    {
        let ghost before = out@.map_values(|x: (u64, Vec<u8>)| (x.0, x.1@));
        assert(mv.take(i + 1).drop_last() =~= mv.take(i as int));
        assert(mv.take(i + 1).last() == (m@[i as int].order, m@[i as int].msg@));
        let pos = find_first_after(&out, m[i].order);
        proof { lemma_first_after(before, m@[i as int].order); }
        out.insert(pos, (m[i].order, m[i].msg.clone()));
        assert(out@.map_values(|x: (u64, Vec<u8>)| (x.0, x.1@))
            =~= before.insert(pos as int, (m@[i as int].order, m@[i as int].msg@)));
        i = i + 1;
    }
    assert(mv.take(m.len() as int) =~= mv);
    out
}

/// The outcome of executing proposal `id` at time `now`: a passed proposal,
/// between the end of its delay and its expiration, is marked executed and
/// its messages are answered in a stable sort by their order.
pub open spec fn execute_outcome(old: &Governance, new: &Governance, r: Result<Seq<(u64, Seq<u8>)>, GovError>, id: u64,
    now: u64) -> bool {
    &&& new.config == old.config
    &&& new.pending() == old.pending()
    &&& new.proposal_count == old.proposal_count
    &&& r is Err ==> new.active() == old.active()
    &&& match entry_index(old.active(), id_text(id)) {
        None => r matches Err(GovError::ProposalNotFound),
        Some(i) => {
            let p = old.active()[i].1;
            if p.status != ProposalStatus::Passed {
                r matches Err(GovError::ProposalNotPassed)
            } else if now < p.delayed_end_block {
                r matches Err(GovError::ProposalDelayNotEnded)
            } else if now > p.expiration_block {
                r matches Err(GovError::ExecuteProposalExpired)
            } else {
                &&& r == Ok::<Seq<(u64, Seq<u8>)>, GovError>(match p.messages { Some(m) => sort_by_order(m), None => Seq::empty() })
                &&& new.active() == old.active().update(i, (id_text(id), ProposalView { status: ProposalStatus::Executed, ..p }))
            }
        },
    }
}

/// The outcome of removing proposal `id` at time `now` for `sender`.
pub open spec fn remove_outcome(old: &Governance, new: &Governance, r: Result<(), GovError>, sender: Seq<char>,
    id: u64, now: u64) -> bool {
    let key = id_text(id);
    let c = old.config;
    let in_active = entry_index(old.active(), key);
    let in_pending = entry_index(old.pending(), key);
    let aligned = in_active is Some;
    let p = if aligned { old.active()[in_active->0].1 } else { old.pending()[in_pending->0].1 };
    let grace = (c.proposal_effective_delay + c.proposal_expiration_period) * 6;
    &&& new.proposal_count == old.proposal_count
    &&& r is Err ==> new.active() == old.active() && new.pending() == old.pending()
    &&& if in_active is None && in_pending is None {
        r matches Err(GovError::ProposalNotFound)
    } else if aligned && p.end_block + grace > u64::MAX {
        r matches Err(GovError::Overflow)
    } else {
        let expired = if aligned { now > p.end_block + grace } else { now > p.end_block };
        if expired && !aligned {
            r is Ok && removed(old.pending(), new.pending(), key) && new.active() == old.active()
        } else if expired || p.status == ProposalStatus::Rejected || sender == p.submitter {
            r is Ok && removed(old.active(), new.active(), key) && new.pending() == old.pending()
        } else {
            r matches Err(GovError::CantRemove)
        }
    }
}

/// The changes of the configuration a proposal may make.
pub struct UpdateConfig {
    pub mbrn_denom: Option<String>,
    pub minimum_total_stake: Option<u128>,
    pub staking_contract: Option<String>,
    pub vesting_contract_addr: Option<String>,
    pub proposal_voting_period: Option<u64>,
    pub expedited_proposal_voting_period: Option<u64>,
    pub proposal_effective_delay: Option<u64>,
    pub proposal_expiration_period: Option<u64>,
    pub proposal_required_stake: Option<u128>,
    pub proposal_required_quorum: Option<String>,
    pub proposal_required_threshold: Option<String>,
    pub whitelist_add: Option<Vec<String>>,
    pub whitelist_remove: Option<Vec<String>>,
}

/// The whitelist after adding the links of `add` that it does not hold and
/// removing those in `remove`.
pub open spec fn new_whitelist(old: Seq<Seq<char>>, add: Option<Seq<Seq<char>>>, remove: Option<Seq<Seq<char>>>) -> Seq<Seq<char>> {
    let added = match add {
        Some(a) => old + a.filter(|l: Seq<char>| !old.contains(l)),
        None => old,
    };
    match remove {
        Some(rm) => added.filter(|l: Seq<char>| !rm.contains(l)),
        None => added,
    }
}

/// The outcome of updating the configuration.
pub open spec fn update_config_outcome(old: &Config, new: &Config, r: Result<(), GovError>, sender: Seq<char>,
    this: Seq<char>, u: &UpdateConfig) -> bool {
    let wl = new_whitelist(texts(old.whitelisted_links@),
        match u.whitelist_add { Some(a) => Some(texts(a@)), None => None },
        match u.whitelist_remove { Some(a) => Some(texts(a@)), None => None });
    &&& r is Err ==> new == old
    &&& if sender != this {
        r matches Err(GovError::Unauthorized)
    } else if u.proposal_required_quorum matches Some(q) && decimal_from_str(q@) is None {
        r matches Err(GovError::InvalidDecimal)
    } else if u.proposal_required_threshold matches Some(t) && decimal_from_str(t@) is None {
        r matches Err(GovError::InvalidDecimal)
    } else if u.whitelist_remove is Some && wl.len() == 0 {
        r matches Err(GovError::WhitelistEmpty)
    } else {
        &&& r is Ok
        &&& new.mbrn_denom@ == (match u.mbrn_denom { Some(x) => x@, None => old.mbrn_denom@ })
        &&& new.minimum_total_stake == (match u.minimum_total_stake { Some(x) => x, None => old.minimum_total_stake })
        &&& new.staking_contract_addr@ == (match u.staking_contract { Some(x) => x@, None => old.staking_contract_addr@ })
        &&& new.vesting_contract_addr@ == (match u.vesting_contract_addr { Some(x) => x@, None => old.vesting_contract_addr@ })
        &&& new.vesting_voting_power_multiplier == old.vesting_voting_power_multiplier
        &&& new.proposal_voting_period == (match u.proposal_voting_period { Some(x) => x, None => old.proposal_voting_period })
        &&& new.expedited_proposal_voting_period
            == (match u.expedited_proposal_voting_period { Some(x) => x, None => old.expedited_proposal_voting_period })
        &&& new.proposal_effective_delay == (match u.proposal_effective_delay { Some(x) => x, None => old.proposal_effective_delay })
        &&& new.proposal_expiration_period
            == (match u.proposal_expiration_period { Some(x) => x, None => old.proposal_expiration_period })
        &&& new.proposal_required_stake == (match u.proposal_required_stake { Some(x) => x, None => old.proposal_required_stake })
        &&& new.proposal_required_quorum
            == (match u.proposal_required_quorum { Some(q) => decimal_from_str(q@)->Some_0, None => old.proposal_required_quorum })
        &&& new.proposal_required_threshold
            == (match u.proposal_required_threshold { Some(q) => decimal_from_str(q@)->Some_0, None => old.proposal_required_threshold })
        &&& texts(new.whitelisted_links@) == wl
        &&& new.quadratic_voting == old.quadratic_voting
    }
}

/// The new text where one is given, else a copy of the old.
fn or_text(new: Option<String>, old: &String) -> (r: String)
    ensures
        r@ == (match new { Some(x) => x@, None => old@ }),
{
    match new {
        Some(x) => x,
        None => old.clone(),
    }
}

/// Whether `s` is among `v`.
pub fn contains_text(v: &Vec<String>, s: &String) -> (r: bool)
    ensures
        r == texts(v@).contains(s@),
{
    let mut i: usize = 0;
    while i < v.len()
        invariant
            i <= v.len(),
            forall|j: int| 0 <= j < i ==> texts(v@)[j] != s@,
        decreases v.len() - i,
    {
        if v[i] == *s {
            assert(texts(v@)[i as int] == s@);
            return true;
        }
        i = i + 1;
    }
    false
}

/// The whitelist after the update (see `new_whitelist`).
fn updated_whitelist(old: &Vec<String>, add: &Option<Vec<String>>, remove: &Option<Vec<String>>) -> (r: Vec<String>)
    ensures
        texts(r@) == new_whitelist(texts(old@), match add { Some(a) => Some(texts(a@)), None => None },
            match remove { Some(a) => Some(texts(a@)), None => None }),
{
    let mut added = copy_texts(old);
    if let Some(a) = add {
        let ghost pred = |l: Seq<char>| !texts(old@).contains(l);
        let ghost ta = texts(a@);
        let mut i: usize = 0;
        assert(ta.take(0).filter(pred) =~= Seq::<Seq<char>>::empty());
        assert(texts(added@) =~= texts(old@) + ta.take(0).filter(pred));
        while i < a.len()
            invariant
                i <= a.len(),
                ta == texts(a@),
                pred == (|l: Seq<char>| !texts(old@).contains(l)),
                texts(added@) == texts(old@) + ta.take(i as int).filter(pred),
            decreases a.len() - i,
        {
            proof {
                assert(ta.take(i + 1) =~= ta.take(i as int).push(ta[i as int]));
                ta.take(i as int).lemma_filter_push(ta[i as int], pred);
            }
            if !contains_text(old, &a[i]) {
                let ghost before = texts(added@);
                added.push(a[i].clone());
                assert(texts(added@) =~= before.push(ta[i as int]));
            }
            i = i + 1;
        }
        assert(ta.take(a.len() as int) =~= ta);
    }
    let ghost base = texts(added@);
    match remove {
        Some(rm) => {
            let ghost pred = |l: Seq<char>| !texts(rm@).contains(l);
            let mut out: Vec<String> = Vec::new();
            let mut i: usize = 0;
            assert(base.take(0).filter(pred) =~= Seq::<Seq<char>>::empty());
            while i < added.len()
                invariant
                    i <= added.len(),
                    base == texts(added@),
                    pred == (|l: Seq<char>| !texts(rm@).contains(l)),
                    texts(out@) == base.take(i as int).filter(pred),
                decreases added.len() - i,
            {
                proof {
                    assert(base.take(i + 1) =~= base.take(i as int).push(base[i as int]));
                    base.take(i as int).lemma_filter_push(base[i as int], pred);
                }
                if !contains_text(rm, &added[i]) {
                    let ghost before = texts(out@);
                    out.push(added[i].clone());
                    assert(texts(out@) =~= before.push(base[i as int]));
                }
                i = i + 1;
            }
            assert(base.take(added.len() as int) =~= base);
            out
        },
        None => added,
    }
}

impl Governance {
    /// A new governance contract with no proposals. Quorum and threshold
    /// are given as decimal text; voting is quadratic and the minimum total
    /// stake is 1,000,000 MBRN (10^12 of its smallest unit).
    pub fn instantiate(
        mbrn_denom: String,
        staking_contract_addr: String,
        vesting_contract_addr: String,
        vesting_voting_power_multiplier: u128,
        proposal_voting_period: u64,
        expedited_proposal_voting_period: u64,
        proposal_effective_delay: u64,
        proposal_expiration_period: u64,
        proposal_required_stake: u128,
        proposal_required_quorum: &String,
        proposal_required_threshold: &String,
        whitelisted_links: Vec<String>,
    ) -> (r: Result<Governance, GovError>)
        ensures
            decimal_from_str(proposal_required_quorum@) is None || decimal_from_str(proposal_required_threshold@) is None
                ==> r matches Err(GovError::InvalidDecimal),
            decimal_from_str(proposal_required_quorum@) is Some && decimal_from_str(proposal_required_threshold@) is Some
                ==> (r matches Ok(g) && {
                    &&& g.wf()
                    &&& g.proposal_count == 0
                    &&& g.active().len() == 0
                    &&& g.pending().len() == 0
                    &&& g.config.mbrn_denom == mbrn_denom
                    &&& g.config.minimum_total_stake == 1_000_000_000_000
                    &&& g.config.staking_contract_addr == staking_contract_addr
                    &&& g.config.vesting_contract_addr == vesting_contract_addr
                    &&& g.config.vesting_voting_power_multiplier == vesting_voting_power_multiplier
                    &&& g.config.proposal_voting_period == proposal_voting_period
                    &&& g.config.expedited_proposal_voting_period == expedited_proposal_voting_period
                    &&& g.config.proposal_effective_delay == proposal_effective_delay
                    &&& g.config.proposal_expiration_period == proposal_expiration_period
                    &&& g.config.proposal_required_stake == proposal_required_stake
                    &&& g.config.proposal_required_quorum == decimal_from_str(proposal_required_quorum@)->Some_0
                    &&& g.config.proposal_required_threshold == decimal_from_str(proposal_required_threshold@)->Some_0
                    &&& g.config.whitelisted_links == whitelisted_links
                    &&& g.config.quadratic_voting
                }),
    {
        let quorum = match parse_decimal(proposal_required_quorum) {
            Some(q) => q,
            None => return Err(GovError::InvalidDecimal),
        };
        let threshold = match parse_decimal(proposal_required_threshold) {
            Some(t) => t,
            None => return Err(GovError::InvalidDecimal),
        };
        let g = Governance {
            config: Config {
                mbrn_denom,
                minimum_total_stake: 1_000_000_000_000,
                staking_contract_addr,
                vesting_contract_addr,
                vesting_voting_power_multiplier,
                proposal_voting_period,
                expedited_proposal_voting_period,
                proposal_effective_delay,
                proposal_expiration_period,
                proposal_required_stake,
                proposal_required_quorum: quorum,
                proposal_required_threshold: threshold,
                whitelisted_links,
                quadratic_voting: true,
            },
            proposal_count: 0,
            proposals: Vec::new(),
            pending_proposals: Vec::new(),
        };
        assert(g.active() =~= Seq::<(Seq<char>, ProposalView)>::empty());
        assert(g.pending() =~= Seq::<(Seq<char>, ProposalView)>::empty());
        assert(entry_keys(g.active()) =~= Seq::<Seq<char>>::empty());
        assert(entry_keys(g.pending()) =~= Seq::<Seq<char>>::empty());
        Ok(g)
    }

    /// Mark passed proposal `proposal_id` executed at time `now`, between
    /// the end of its delay and its expiration. Answers its messages in a
    /// stable sort by their order.
    pub fn execute_proposal(&mut self, proposal_id: u64, now: u64) -> (r: Result<Vec<(u64, Vec<u8>)>, GovError>)
        requires
            old(self).wf(),
        ensures
            final(self).wf(),
            execute_outcome(old(self), final(self), match r {
                Ok(m) => Ok(m@.map_values(|x: (u64, Vec<u8>)| (x.0, x.1@))),
                Err(e) => Err(e),
            }, proposal_id, now),
    {
        let key = id_key(proposal_id);
        proof { lemma_entry_index(self.active(), key@); }
        let idx = match find_entry(&self.proposals, &key) {
            Some(i) => i,
            None => return Err(GovError::ProposalNotFound),
        };
        let mut p = self.proposals[idx].1.copy();
        assert(p@ == self.active()[idx as int].1);
        if p.status != ProposalStatus::Passed {
            return Err(GovError::ProposalNotPassed);
        }
        if now < p.delayed_end_block {
            return Err(GovError::ProposalDelayNotEnded);
        }
        if now > p.expiration_block {
            return Err(GovError::ExecuteProposalExpired);
        }
        p.status = ProposalStatus::Executed;
        let msgs = match &p.messages {
            Some(m) => sorted_messages(m),
            None => {
                let v: Vec<(u64, Vec<u8>)> = Vec::new();
                assert(v@.map_values(|x: (u64, Vec<u8>)| (x.0, x.1@)) =~= Seq::<(u64, Seq<u8>)>::empty());
                v
            },
        };
        replace_entry(&mut self.proposals, idx, key, p);
        Ok(msgs)
    }

    /// Remove proposal `proposal_id` at time `now` for `sender`: a pending
    /// one once its day is over; an active one once expired (past its end,
    /// delay and expiration period) or rejected, or by its submitter.
    pub fn remove_completed_proposal(&mut self, sender: &String, proposal_id: u64, now: u64) -> (r: Result<(), GovError>)
        requires
            old(self).wf(),
        ensures
            final(self).wf(),
            final(self).config == old(self).config,
            remove_outcome(old(self), final(self), r, sender@, proposal_id, now),
    {
        let key = id_key(proposal_id);
        proof {
            lemma_entry_index(self.active(), key@);
            lemma_entry_index(self.pending(), key@);
        }
        let (aligned, idx) = match find_entry(&self.proposals, &key) {
            Some(i) => (true, i),
            None => match find_entry(&self.pending_proposals, &key) {
                Some(i) => (false, i),
                None => return Err(GovError::ProposalNotFound),
            },
        };
        let p = if aligned { &self.proposals[idx].1 } else { &self.pending_proposals[idx].1 };
        assert(aligned ==> p@ == self.active()[idx as int].1);
        assert(!aligned ==> p@ == self.pending()[idx as int].1);
        let expired = if aligned {
            let c = &self.config;
            let grace = match c.proposal_effective_delay.checked_add(c.proposal_expiration_period) {
                Some(g) => match g.checked_mul(6) {
                    Some(g) => g,
                    None => return Err(GovError::Overflow),
                },
                None => return Err(GovError::Overflow),
            };
            let deadline = match p.end_block.checked_add(grace) {
                Some(d) => d,
                None => return Err(GovError::Overflow),
            };
            now > deadline
        } else {
            now > p.end_block
        };
        let rejected = p.status == ProposalStatus::Rejected;
        let by_submitter = *sender == p.submitter;
        if expired && !aligned {
            let _gone = remove_entry(&mut self.pending_proposals, &key);
        } else if expired || rejected || by_submitter {
            let _gone = remove_entry(&mut self.proposals, &key);
        } else {
            return Err(GovError::CantRemove);
        }
        Ok(())
    }

    /// Update the configuration; only the contract itself (`this`) may,
    /// through a passed proposal.
    pub fn update_config(&mut self, sender: &String, this: &String, u: UpdateConfig) -> (r: Result<(), GovError>)
        requires
            old(self).wf(),
        ensures
            final(self).wf(),
            final(self).active() == old(self).active(),
            final(self).pending() == old(self).pending(),
            final(self).proposal_count == old(self).proposal_count,
            update_config_outcome(&old(self).config, &final(self).config, r, sender@, this@, &u),
    {
        if *sender != *this {
            return Err(GovError::Unauthorized);
        }
        let quorum = match &u.proposal_required_quorum {
            Some(q) => match parse_decimal(q) {
                Some(v) => v,
                None => return Err(GovError::InvalidDecimal),
            },
            None => self.config.proposal_required_quorum,
        };
        let threshold = match &u.proposal_required_threshold {
            Some(q) => match parse_decimal(q) {
                Some(v) => v,
                None => return Err(GovError::InvalidDecimal),
            },
            None => self.config.proposal_required_threshold,
        };
        let links = updated_whitelist(&self.config.whitelisted_links, &u.whitelist_add, &u.whitelist_remove);
        if u.whitelist_remove.is_some() && links.len() == 0 {
            return Err(GovError::WhitelistEmpty);
        }
        let UpdateConfig {
            mbrn_denom, minimum_total_stake, staking_contract, vesting_contract_addr, proposal_voting_period,
            expedited_proposal_voting_period, proposal_effective_delay, proposal_expiration_period,
            proposal_required_stake, proposal_required_quorum: _, proposal_required_threshold: _,
            whitelist_add: _, whitelist_remove: _,
        } = u;
        let c = &self.config;
        let updated = Config {
            mbrn_denom: or_text(mbrn_denom, &c.mbrn_denom),
            minimum_total_stake: match minimum_total_stake { Some(x) => x, None => c.minimum_total_stake },
            staking_contract_addr: or_text(staking_contract, &c.staking_contract_addr),
            vesting_contract_addr: or_text(vesting_contract_addr, &c.vesting_contract_addr),
            vesting_voting_power_multiplier: c.vesting_voting_power_multiplier,
            proposal_voting_period: match proposal_voting_period { Some(x) => x, None => c.proposal_voting_period },
            expedited_proposal_voting_period: match expedited_proposal_voting_period {
                Some(x) => x,
                None => c.expedited_proposal_voting_period,
            },
            proposal_effective_delay: match proposal_effective_delay { Some(x) => x, None => c.proposal_effective_delay },
            proposal_expiration_period: match proposal_expiration_period {
                Some(x) => x,
                None => c.proposal_expiration_period,
            },
            proposal_required_stake: match proposal_required_stake { Some(x) => x, None => c.proposal_required_stake },
            proposal_required_quorum: quorum,
            proposal_required_threshold: threshold,
            whitelisted_links: links,
            quadratic_voting: c.quadratic_voting,
        };
        self.config = updated;
        Ok(())
    }
}

/// The address allowed to freeze positions.
pub open spec fn founder() -> Seq<char> {
    "osmo1988s5h45qwkaqch8km4ceagw2e08vdw28mwk4n"@
}

/// What freezing positions asks of the positions contract: the basket's
/// frozen flag, and the native assets whose supply caps drop to zero where
/// any are named.
#[derive(Debug)]
pub struct FreezeOrder {
    pub frozen: bool,
    pub zeroed_supply_caps: Option<Vec<String>>,
}

/// Freeze (or unfreeze) positions; only the founder may.
pub fn freeze_positions(sender: &String, frozen: bool, freeze_these_assets: Vec<String>) -> (r: Result<FreezeOrder, GovError>)
    ensures
        sender@ != founder() ==> r matches Err(GovError::Unauthorized),
        sender@ == founder() ==> (r matches Ok(o) && o.frozen == frozen && match o.zeroed_supply_caps {
            Some(v) => freeze_these_assets@.len() > 0 && v@ == freeze_these_assets@,
            None => freeze_these_assets@.len() == 0,
        }),
{
    let f = String::from_str("osmo1988s5h45qwkaqch8km4ceagw2e08vdw28mwk4n");
    if *sender != f {
        return Err(GovError::Unauthorized);
    }
    if freeze_these_assets.len() == 0 {
        Ok(FreezeOrder { frozen, zeroed_supply_caps: None })
    } else {
        Ok(FreezeOrder { frozen, zeroed_supply_caps: Some(freeze_these_assets) })
    }
}

/// Whether a gauge may be created or funded: only the contract itself may,
/// through a passed proposal, since the assets are its own.
pub fn create_gauge(sender: &String, this: &String) -> (r: Result<(), GovError>)
    ensures
        sender@ == this@ <==> r is Ok,
        r is Err ==> r matches Err(GovError::Unauthorized),
{
    if *sender != *this {
        return Err(GovError::Unauthorized);
    }
    Ok(())
}

} // verus!
