//! Reading the proposals: lists in key order, one proposal, its votes and
//! its voters.
use vstd::prelude::*;
use crate::keys::{key_lt, label_lt};
use crate::emissions_voting::queries::lemma_filter_prefix;
use crate::governance::state::{Governance, Proposal, ProposalView, ProposalVoteOption, GovError, texts, entries_view,
    id_text, id_key};
use crate::governance::entries::{entry_index, lemma_entry_index, find_entry};
use crate::governance::admin::contains_text;
use crate::governance::power::{GovStake, Allocation, DelegationInfo, StakerEntry, voting_power_spec, infos_view,
    total_power_spec, staker_entries, calc_voting_power, calc_total_voting_power_at};

verus! {

/// Proposals listed when no limit is given.
pub const DEFAULT_LIMIT: u32 = 10;
/// The most proposals listed at once.
pub const MAX_LIMIT: u32 = 30;
/// Voters listed when no limit is given.
pub const DEFAULT_VOTERS_LIMIT: u32 = 100;
/// The most voters listed at once.
pub const MAX_VOTERS_LIMIT: u32 = 250;

/// A page of proposals, with the number of proposals ever made.
pub struct ProposalListResponse {
    pub proposal_count: u64,
    pub proposal_list: Vec<Proposal>,
}

/// The voting power behind each option of a proposal.
pub struct ProposalVotesResponse {
    pub proposal_id: u64,
    pub for_power: u128,
    pub against_power: u128,
    pub amendment_power: u128,
    pub removal_power: u128,
    pub aligned_power: u128,
}

/// `limit`, or the default where none is given, at most `max`.
pub open spec fn capped(limit: Option<u32>, default: u32, max: u32) -> nat {
    let l = match limit { Some(l) => l, None => default };
    if l < max { l as nat } else { max as nat }
}

/// The first `n` of `s`, or all of them.
pub open spec fn first_n<A>(s: Seq<A>, n: nat) -> Seq<A> {
    if n < s.len() { s.take(n as int) } else { s }
}

/// Whether an entry is listed from `start` on: its key is not before the
/// text of `start`.
pub open spec fn from_start(start: Option<u64>) -> spec_fn((Seq<char>, ProposalView)) -> bool {
    |e: (Seq<char>, ProposalView)| start matches Some(s) ==> !key_lt(e.0, id_text(s))
}

/// The proposals from key `start` on, in key order, at most as many as
/// `limit` allows.
pub open spec fn listed_proposals(entries: Seq<(Seq<char>, ProposalView)>, start: Option<u64>, limit: Option<u32>) -> Seq<ProposalView> {
    first_n(entries.filter(from_start(start)), capped(limit, DEFAULT_LIMIT, MAX_LIMIT))
        .map_values(|e: (Seq<char>, ProposalView)| e.1)
}

/// The voters of option `option` of proposal `p`.
pub open spec fn option_voters(p: ProposalView, option: ProposalVoteOption) -> Seq<Seq<char>> {
    match option {
        ProposalVoteOption::For => p.for_voters,
        ProposalVoteOption::Against => p.against_voters,
        ProposalVoteOption::Amend => p.amendment_voters,
        ProposalVoteOption::Remove => p.removal_voters,
        ProposalVoteOption::Align => p.aligned_voters,
    }
}

/// The voters after skipping `start` of them, at most as many as `limit`
/// allows.
pub open spec fn voters_page(voters: Seq<Seq<char>>, start: u64, limit: Option<u32>) -> Seq<Seq<char>> {
    let skipped = if start < voters.len() { voters.skip(start as int) } else { Seq::empty() };
    first_n(skipped, capped(limit, DEFAULT_VOTERS_LIMIT, MAX_VOTERS_LIMIT))
}

fn limit_of(limit: Option<u32>, default: u32, max: u32) -> (r: usize)
    ensures
        r as nat == capped(limit, default, max),
{
    let l = match limit { Some(l) => l, None => default };
    if l < max { l as usize } else { max as usize }
}

/// The proposals of `v` from key `start` on, in key order, at most as many
/// as `limit` allows.
fn list_entries(v: &Vec<(String, Proposal)>, start: Option<u64>, limit: Option<u32>) -> (r: Vec<Proposal>)
    ensures
        r@.map_values(|p: Proposal| p@) == listed_proposals(entries_view(v@), start, limit),
{
    let ghost es = entries_view(v@);
    let ghost pred = from_start(start);
    let ghost snd = |e: (Seq<char>, ProposalView)| e.1;
    let n = limit_of(limit, DEFAULT_LIMIT, MAX_LIMIT);
    let start_key = match start { Some(s) => Some(id_key(s)), None => None };
    let mut out: Vec<Proposal> = Vec::new();
    let mut i: usize = 0;
    assert(es.take(0).filter(pred) =~= Seq::<(Seq<char>, ProposalView)>::empty());
    assert(out@.map_values(|p: Proposal| p@) =~= es.take(0).filter(pred).map_values(snd));
    while i < v.len() && out.len() < n
        invariant
            i <= v.len(),
            out@.len() <= n,
            n as nat == capped(limit, DEFAULT_LIMIT, MAX_LIMIT),
            es == entries_view(v@),
            pred == from_start(start),
            snd == (|e: (Seq<char>, ProposalView)| e.1),
            match start { Some(s) => start_key matches Some(k) && k@ == id_text(s), None => start_key is None },
            out@.map_values(|p: Proposal| p@) == es.take(i as int).filter(pred).map_values(snd),
        decreases v.len() - i,
    {
        let ghost before = es.take(i as int).filter(pred);
        proof {
            assert(es.take(i + 1) =~= es.take(i as int).push(es[i as int]));
            es.take(i as int).lemma_filter_push(es[i as int], pred);
            assert(es[i as int] == (v@[i as int].0@, v@[i as int].1@));
        }
        let keep = match &start_key {
            Some(k) => !label_lt(&v[i].0, k),
            None => true,
        };
        if keep {
            let ghost prev = out@.map_values(|p: Proposal| p@);
            out.push(v[i].1.copy());
            assert(out@.map_values(|p: Proposal| p@) =~= prev.push(v@[i as int].1@));
            assert(before.push(es[i as int]).map_values(snd) =~= before.map_values(snd).push(es[i as int].1));
        }
        i = i + 1;
    }
    proof {
        let f = es.filter(pred);
        lemma_filter_prefix(es, pred, i as int);
        if i == v.len() {
            assert(es.take(i as int) =~= es);
            assert(f.take(f.len() as int) =~= f);
        }
        assert(first_n(f, n as nat) =~= es.take(i as int).filter(pred));
    }
    out
}

impl Governance {
    /// The active proposals from id `start` on (by the key order of their id
    /// texts), at most `limit` of them (10 by default, at most 30).
    pub fn query_proposals(&self, start: Option<u64>, limit: Option<u32>) -> (r: ProposalListResponse)
        ensures
            r.proposal_count == self.proposal_count,
            r.proposal_list@.map_values(|p: Proposal| p@) == listed_proposals(self.active(), start, limit),
    {
        ProposalListResponse { proposal_count: self.proposal_count, proposal_list: list_entries(&self.proposals, start, limit) }
    }

    /// The pending proposals from id `start` on, as `query_proposals` lists.
    pub fn query_pending_proposals(&self, start: Option<u64>, limit: Option<u32>) -> (r: ProposalListResponse)
        ensures
            r.proposal_count == self.proposal_count,
            r.proposal_list@.map_values(|p: Proposal| p@) == listed_proposals(self.pending(), start, limit),
    {
        ProposalListResponse {
            proposal_count: self.proposal_count,
            proposal_list: list_entries(&self.pending_proposals, start, limit),
        }
    }

    /// Active proposal `proposal_id`.
    pub fn query_proposal(&self, proposal_id: u64) -> (r: Result<Proposal, GovError>)
        ensures
            match entry_index(self.active(), id_text(proposal_id)) {
                None => r matches Err(GovError::ProposalNotFound),
                Some(i) => r matches Ok(p) && p@ == self.active()[i].1,
            },
    {
        let key = id_key(proposal_id);
        proof { lemma_entry_index(self.active(), key@); }
        match find_entry(&self.proposals, &key) {
            Some(i) => {
                let p = self.proposals[i].1.copy();
                assert(p@ == self.active()[i as int].1);
                Ok(p)
            },
            None => Err(GovError::ProposalNotFound),
        }
    }

    /// The voting power behind each option of active proposal `proposal_id`.
    pub fn query_proposal_votes(&self, proposal_id: u64) -> (r: Result<ProposalVotesResponse, GovError>)
        ensures
            match entry_index(self.active(), id_text(proposal_id)) {
                None => r matches Err(GovError::ProposalNotFound),
                Some(i) => {
                    let p = self.active()[i].1;
                    r matches Ok(v) && v.proposal_id == proposal_id && v.for_power == p.for_power
                        && v.against_power == p.against_power && v.amendment_power == p.amendment_power
                        && v.removal_power == p.removal_power && v.aligned_power == p.aligned_power
                },
            },
    {
        let key = id_key(proposal_id);
        proof { lemma_entry_index(self.active(), key@); }
        match find_entry(&self.proposals, &key) {
            Some(i) => {
                let p = &self.proposals[i].1;
                assert(p@ == self.active()[i as int].1);
                Ok(ProposalVotesResponse {
                    proposal_id,
                    for_power: p.for_power,
                    against_power: p.against_power,
                    amendment_power: p.amendment_power,
                    removal_power: p.removal_power,
                    aligned_power: p.aligned_power,
                })
            },
            None => Err(GovError::ProposalNotFound),
        }
    }

    /// The voters of option `vote_option` of active proposal `proposal_id`:
    /// where `specific_user` is given, just that user if they voted for the
    /// option; else those after the first `start`, at most `limit` of them
    /// (100 by default, at most 250).
    pub fn query_proposal_voters(&self, proposal_id: u64, vote_option: ProposalVoteOption, start: Option<u64>,
        limit: Option<u32>, specific_user: Option<String>) -> (r: Result<Vec<String>, GovError>)
        ensures
            match entry_index(self.active(), id_text(proposal_id)) {
                None => r matches Err(GovError::ProposalNotFound),
                Some(i) => {
                    let voters = option_voters(self.active()[i].1, vote_option);
                    match specific_user {
                        Some(u) => if voters.contains(u@) {
                            r matches Ok(v) && texts(v@) == seq![u@]
                        } else {
                            r matches Err(GovError::UserDidNotVote)
                        },
                        None => r matches Ok(v) && texts(v@)
                            == voters_page(voters, match start { Some(s) => s, None => 0 }, limit),
                    }
                },
            },
    {
        let key = id_key(proposal_id);
        proof { lemma_entry_index(self.active(), key@); }
        let idx = match find_entry(&self.proposals, &key) {
            Some(i) => i,
            None => return Err(GovError::ProposalNotFound),
        };
        let p = &self.proposals[idx].1;
        assert(p@ == self.active()[idx as int].1);
        let voters = match vote_option {
            ProposalVoteOption::For => &p.for_voters,
            ProposalVoteOption::Against => &p.against_voters,
            ProposalVoteOption::Amend => &p.amendment_voters,
            ProposalVoteOption::Remove => &p.removal_voters,
            ProposalVoteOption::Align => &p.aligned_voters,
        };
        let ghost vs = texts(voters@);
        assert(vs == option_voters(p@, vote_option));
        if let Some(u) = specific_user {
            if contains_text(voters, &u) {
                let mut out: Vec<String> = Vec::new();
                out.push(u);
                assert(texts(out@) =~= seq![u@]);
                return Ok(out);
            }
            return Err(GovError::UserDidNotVote);
        }
        let s = match start { Some(s) => s, None => 0 };
        let n = limit_of(limit, DEFAULT_VOTERS_LIMIT, MAX_VOTERS_LIMIT);
        let len = voters.len();
        let begin: usize = if s < len as u64 { s as usize } else { len };
        let ghost skipped = if s < vs.len() { vs.skip(s as int) } else { Seq::<Seq<char>>::empty() };
        let mut out: Vec<String> = Vec::new();
        let mut i: usize = begin;
        while i < len && out.len() < n
            invariant
                begin <= i <= len,
                len == voters.len(),
                vs == texts(voters@),
                out@.len() == i - begin,
                out@.len() <= n,
                skipped == (if s < vs.len() { vs.skip(s as int) } else { Seq::<Seq<char>>::empty() }),
                begin == (if s < vs.len() { s as int } else { vs.len() as int }),
                texts(out@) == vs.subrange(begin as int, i as int),
            decreases len - i,
        {
            out.push(voters[i].clone());
            assert(texts(out@) =~= vs.subrange(begin as int, i + 1));
            i = i + 1;
        }
        assert(skipped =~= vs.subrange(begin as int, len as int));
        assert(texts(out@) =~= first_n(skipped, n as nat));
        Ok(out)
    }

    /// The voting power of `user` at active proposal `proposal_id` (as of
    /// its start), from the stakes, vesting allocation and delegations as
    /// queried; with `vesting`, the user is taken as the vesting recipient.
    pub fn query_user_voting_power(
        &self,
        proposal_id: u64,
        user: &String,
        vesting: bool,
        stakes: &Option<Vec<GovStake>>,
        allocation: Option<Allocation>,
        delegations: &Option<Vec<DelegationInfo>>,
        non_vested_total: u128,
    ) -> (r: Result<u128, GovError>)
        ensures
            match entry_index(self.active(), id_text(proposal_id)) {
                None => r matches Err(GovError::ProposalNotFound),
                Some(i) => match voting_power_spec(
                    match stakes { Some(s) => Some(s@), None => None },
                    allocation,
                    match delegations { Some(d) => Some(infos_view(d@)), None => None },
                    user@,
                    if vesting { Some(user@) } else { None },
                    self.active()[i].1.start_time, false, self.config.quadratic_voting,
                    self.config.vesting_voting_power_multiplier, non_vested_total) {
                    Ok((p, _)) => r == Ok::<u128, GovError>(p as u128),
                    Err(e) => r matches Err(x) && x == e,
                },
            },
    {
        let key = id_key(proposal_id);
        proof { lemma_entry_index(self.active(), key@); }
        let idx = match find_entry(&self.proposals, &key) {
            Some(i) => i,
            None => return Err(GovError::ProposalNotFound),
        };
        let start_time = self.proposals[idx].1.start_time;
        assert(start_time == self.active()[idx as int].1.start_time);
        let recipient = if vesting { Some(user.clone()) } else { None };
        match calc_voting_power(stakes, allocation, delegations, user, &recipient, start_time, false,
            self.config.quadratic_voting, self.config.vesting_voting_power_multiplier, non_vested_total) {
            Ok((p, _)) => Ok(p),
            Err(e) => Err(e),
        }
    }

    /// The total voting power at active proposal `proposal_id` (as of its
    /// start), from the staked list and the vesting recipients' allocations
    /// as queried.
    pub fn query_total_voting_power(
        &self,
        proposal_id: u64,
        stakers: &Vec<StakerEntry>,
        recipients: &Vec<Option<Allocation>>,
        non_vested_total: u128,
    ) -> (r: Result<u128, GovError>)
        ensures
            match entry_index(self.active(), id_text(proposal_id)) {
                None => r matches Err(GovError::ProposalNotFound),
                Some(i) => match total_power_spec(staker_entries(stakers@), recipients@, non_vested_total,
                    self.active()[i].1.start_time, self.config.quadratic_voting,
                    self.config.vesting_voting_power_multiplier) {
                    Some(t) => r == Ok::<u128, GovError>(t as u128),
                    None => r matches Err(GovError::Overflow),
                },
            },
    {
        let key = id_key(proposal_id);
        proof { lemma_entry_index(self.active(), key@); }
        let idx = match find_entry(&self.proposals, &key) {
            Some(i) => i,
            None => return Err(GovError::ProposalNotFound),
        };
        let start_time = self.proposals[idx].1.start_time;
        assert(start_time == self.active()[idx as int].1.start_time);
        calc_total_voting_power_at(stakers, recipients, non_vested_total, start_time, self.config.quadratic_voting,
            self.config.vesting_voting_power_multiplier)
    }
}

} // verus!
