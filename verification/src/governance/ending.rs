//! Ending a proposal: quorum over the total voting power, then the share of
//! For (or For and Amend, or Remove) votes against the threshold.
use vstd::prelude::*;
use crate::math::{fraction, u128_limit};
use crate::decimal::{ddiv, decimal_from_ratio};
use crate::governance::state::{Governance, Config, Proposal, ProposalView, ProposalStatus, GovError, id_text,
    id_key, sqrt_floor, uint_sqrt_floor};
use crate::governance::entries::{entry_index, lemma_entry_index, removed, find_entry, remove_entry};
use crate::governance::voting::replace_entry;

verus! {

/// Half, the threshold of a proposal without messages.
pub const HALF: u128 = 500_000_000_000_000_000;

/// The threshold that applies: half for a proposal without messages that
/// got votes, else the configured one.
pub open spec fn applied_threshold(p: ProposalView, total_votes: nat, configured: u128) -> nat {
    if total_votes != 0 && (p.messages is None || p.messages->0.len() == 0) { HALF as nat } else { configured as nat }
}

/// The share `part / total` as a decimal, 0 where there are no votes.
pub open spec fn share(part: nat, total: nat) -> nat {
    if total != 0 { ddiv(part, total) } else { 0 }
}

/// The aligned power counted toward quorum: with quadratic voting, the
/// required stake is taken out and its square root put in.
pub open spec fn quorum_alignment(aligned: u128, required: u128, quadratic: bool) -> Option<nat> {
    if quadratic {
        if aligned < required {
            None
        } else {
            match sqrt_floor(required) {
                Some(s) => if aligned - required + s < u128_limit() { Some((aligned - required + s) as nat) } else { None },
                None => None,
            }
        }
    } else {
        Some(aligned as nat)
    }
}

/// The result of ending proposal `p` (already past its end) with the total
/// voting power `tvp` (1 where it could not be computed): the proposal as
/// saved, and whether it is removed instead; or the error.
pub open spec fn end_decision(p: ProposalView, c: Config, tvp: u128) -> Result<(ProposalView, bool), GovError> {
    let total = (p.for_power + p.against_power + p.amendment_power + p.removal_power) as nat;
    let aligned = if tvp != 0 { quorum_alignment(p.aligned_power, c.proposal_required_stake, c.quadratic_voting) } else { Some(p.aligned_power as nat) };
    if total >= u128_limit() || aligned is None {
        Err(GovError::Overflow)
    } else if tvp != 0 && (total + aligned->0 >= u128_limit() || ddiv((total + aligned->0) as nat, tvp as nat) >= u128_limit()) {
        Err(GovError::Overflow)
    } else {
        let a = aligned->0;
        let quorum = if tvp != 0 { ddiv((total + a) as nat, tvp as nat) } else { 0 };
        let thr = applied_threshold(p, total, c.proposal_required_threshold);
        let for_share = share(p.for_power as nat, total);
        let amend_share = share((p.for_power + p.amendment_power) as nat, total);
        let removal_share = share(p.removal_power as nat, total);
        if quorum >= c.proposal_required_quorum {
            if for_share >= thr {
                Ok((ProposalView { status: ProposalStatus::Passed, aligned_power: a as u128, ..p }, false))
            } else if amend_share >= thr {
                Ok((ProposalView { status: ProposalStatus::AmendmentDesired, aligned_power: a as u128, ..p }, false))
            } else if removal_share >= thr {
                Ok((ProposalView { status: ProposalStatus::Rejected, aligned_power: a as u128, ..p }, true))
            } else {
                Ok((ProposalView { status: ProposalStatus::Rejected, aligned_power: a as u128, ..p }, false))
            }
        } else if p.end_block < p.start_time || c.expedited_proposal_voting_period as nat * 6 > u64::MAX {
            Err(GovError::Overflow)
        } else if p.end_block - p.start_time == c.expedited_proposal_voting_period * 6 {
            let new_end = p.start_time + c.proposal_voting_period as nat * 6;
            let restored = if c.quadratic_voting {
                match sqrt_floor(c.proposal_required_stake) {
                    Some(s) => if a + c.proposal_required_stake < u128_limit() && a + c.proposal_required_stake >= s {
                        Some((a + c.proposal_required_stake - s) as nat)
                    } else {
                        None
                    },
                    None => None,
                }
            } else {
                Some(a)
            };
            if new_end > u64::MAX || restored is None {
                Err(GovError::Overflow)
            } else {
                Ok((ProposalView { status: ProposalStatus::Active, aligned_power: restored->0 as u128,
                    end_block: new_end as u64, ..p }, false))
            }
        } else {
            Ok((ProposalView { status: ProposalStatus::Rejected, aligned_power: a as u128, ..p }, false))
        }
    }
}

/// The outcome of ending proposal `id` at time `now`, where the total voting
/// power came to `tvp` (`None` where it could not be computed).
pub open spec fn end_proposal_outcome(old: &Governance, new: &Governance, r: Result<ProposalStatus, GovError>,
    id: u64, now: u64, tvp: Option<u128>) -> bool {
    let key = id_text(id);
    &&& new.pending() == old.pending()
    &&& new.proposal_count == old.proposal_count
    &&& r is Err ==> new.active() == old.active()
    &&& match entry_index(old.active(), key) {
        None => r matches Err(GovError::ProposalNotFound),
        Some(i) => {
            let p = old.active()[i].1;
            if p.status != ProposalStatus::Active {
                r matches Err(GovError::ProposalNotActive)
            } else if now <= p.end_block {
                r matches Err(GovError::VotingPeriodNotEnded)
            } else {
                match end_decision(p, old.config, match tvp { Some(t) => t, None => 1 }) {
                    Err(e) => r matches Err(x) && x == e,
                    Ok((p2, gone)) => r == Ok::<ProposalStatus, GovError>(p2.status) && if gone {
                        new.active() == old.active().remove(i)
                    } else {
                        new.active() == old.active().update(i, (key, p2))
                    },
                }
            }
        },
    }
}

/// The new state of proposal `p` (see `end_decision`).
fn decide(p: &mut Proposal, c: &Config, tvp: u128) -> (r: Result<bool, GovError>)
    ensures
        match end_decision(old(p)@, *c, tvp) {
            Err(e) => r matches Err(x) && x == e,
            Ok((p2, gone)) => r == Ok::<bool, GovError>(gone) && final(p)@ == p2,
        },
{
    let t1 = match p.for_power.checked_add(p.against_power) { Some(v) => v, None => return Err(GovError::Overflow) };
    let t2 = match t1.checked_add(p.amendment_power) { Some(v) => v, None => return Err(GovError::Overflow) };
    let total = match t2.checked_add(p.removal_power) { Some(v) => v, None => return Err(GovError::Overflow) };
    let required = c.proposal_required_stake;
    let mut aligned = p.aligned_power;
    let mut quorum: u128 = 0;
    if tvp != 0 {
        if c.quadratic_voting {
            if aligned < required {
                return Err(GovError::Overflow);
            }
            let s = match uint_sqrt_floor(required) { Some(v) => v, None => return Err(GovError::Overflow) };
            aligned = match (aligned - required).checked_add(s) { Some(v) => v, None => return Err(GovError::Overflow) };
        }
        let votes = match total.checked_add(aligned) { Some(v) => v, None => return Err(GovError::Overflow) };
        quorum = match decimal_from_ratio(votes, tvp) { Some(v) => v, None => return Err(GovError::Overflow) };
    }
    let mut thr = c.proposal_required_threshold;
    let mut for_share: u128 = 0;
    let mut amend_share: u128 = 0;
    let mut removal_share: u128 = 0;
    if total != 0 {
        proof {
            assert(ddiv(p.for_power as nat, total as nat) <= fraction()) by (nonlinear_arith)
                requires p.for_power <= total, total > 0, ddiv(p.for_power as nat, total as nat) == (p.for_power as nat * fraction()) / total as nat, fraction() > 0;
            assert(ddiv((p.for_power + p.amendment_power) as nat, total as nat) <= fraction()) by (nonlinear_arith)
                requires p.for_power + p.amendment_power <= total, total > 0,
                    ddiv((p.for_power + p.amendment_power) as nat, total as nat) == ((p.for_power + p.amendment_power) as nat * fraction()) / total as nat,
                    fraction() > 0;
            assert(ddiv(p.removal_power as nat, total as nat) <= fraction()) by (nonlinear_arith)
                requires p.removal_power <= total, total > 0, ddiv(p.removal_power as nat, total as nat) == (p.removal_power as nat * fraction()) / total as nat, fraction() > 0;
        }
        for_share = match decimal_from_ratio(p.for_power, total) { Some(v) => v, None => return Err(GovError::Overflow) };
        amend_share = match decimal_from_ratio(p.for_power + p.amendment_power, total) { Some(v) => v, None => return Err(GovError::Overflow) };
        removal_share = match decimal_from_ratio(p.removal_power, total) { Some(v) => v, None => return Err(GovError::Overflow) };
        let no_messages = match &p.messages {
            None => true,
            Some(m) => m.len() == 0,
        };
        if no_messages {
            thr = HALF;
        }
    }
    if quorum >= c.proposal_required_quorum {
        if for_share >= thr {
            p.status = ProposalStatus::Passed;
            p.aligned_power = aligned;
            Ok(false)
        } else if amend_share >= thr {
            p.status = ProposalStatus::AmendmentDesired;
            p.aligned_power = aligned;
            Ok(false)
        } else if removal_share >= thr {
            p.status = ProposalStatus::Rejected;
            p.aligned_power = aligned;
            Ok(true)
        } else {
            p.status = ProposalStatus::Rejected;
            p.aligned_power = aligned;
            Ok(false)
        }
    } else {
        if p.end_block < p.start_time {
            return Err(GovError::Overflow);
        }
        let exp = match c.expedited_proposal_voting_period.checked_mul(6) { Some(v) => v, None => return Err(GovError::Overflow) };
        if p.end_block - p.start_time == exp {
            let span = match c.proposal_voting_period.checked_mul(6) { Some(v) => v, None => return Err(GovError::Overflow) };
            let new_end = match p.start_time.checked_add(span) { Some(v) => v, None => return Err(GovError::Overflow) };
            let restored = if c.quadratic_voting {
                let s = match uint_sqrt_floor(required) { Some(v) => v, None => return Err(GovError::Overflow) };
                let up = match aligned.checked_add(required) { Some(v) => v, None => return Err(GovError::Overflow) };
                if up < s {
                    return Err(GovError::Overflow);
                }
                up - s
            } else {
                aligned
            };
            p.end_block = new_end;
            p.status = ProposalStatus::Active;
            p.aligned_power = restored;
            Ok(false)
        } else {
            p.status = ProposalStatus::Rejected;
            p.aligned_power = aligned;
            Ok(false)
        }
    }
}

impl Governance {
    /// End proposal `proposal_id` at time `now` (anyone may, once its voting
    /// is over), given the total voting power at its start (`None` where it
    /// could not be computed, which counts as 1). Answers the new status.
    pub fn end_proposal(&mut self, proposal_id: u64, now: u64, total_voting_power: Option<u128>) -> (r: Result<ProposalStatus, GovError>)
        requires
            old(self).wf(),
        ensures
            final(self).wf(),
            final(self).config == old(self).config,
            end_proposal_outcome(old(self), final(self), r, proposal_id, now, total_voting_power),
    {
        let key = id_key(proposal_id);
        proof { lemma_entry_index(self.active(), key@); }
        let idx = match find_entry(&self.proposals, &key) {
            Some(i) => i,
            None => return Err(GovError::ProposalNotFound),
        };
        let mut p = self.proposals[idx].1.copy();
        assert(p@ == self.active()[idx as int].1);
        if p.status != ProposalStatus::Active {
            return Err(GovError::ProposalNotActive);
        }
        if now <= p.end_block {
            return Err(GovError::VotingPeriodNotEnded);
        }
        let tvp = match total_voting_power { Some(t) => t, None => 1 };
        let gone = decide(&mut p, &self.config, tvp)?;
        let status = p.status;
        if gone {
            let _removed = remove_entry(&mut self.proposals, &key);
        } else {
            replace_entry(&mut self.proposals, idx, key, p);
        }
        Ok(status)
    }
}

} // verus!
