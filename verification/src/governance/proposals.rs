//! Submitting proposals and voting on them.
use vstd::prelude::*;
use crate::math::u128_limit;
use crate::governance::state::{Governance, Proposal, ProposalView, ProposalStatus, ProposalMessage, GovError,
    BLOCKS_PER_DAY, texts, messages_view, id_text, id_key, sqrt_floor, uint_sqrt_floor};
use crate::governance::entries::{upserted, save_entry};
use crate::governance::validation::{proposal_fault, validate_proposal};

verus! {

/// `a + b` where it fits in 64 bits.
pub open spec fn add64(a: nat, b: nat) -> Option<nat> {
    if a + b <= u64::MAX { Some(a + b) } else { None }
}

/// The end of the voting on a proposal submitted at `now`: the expedited
/// period for an expedited one, at least 7 days for one with messages, else
/// the voting period (periods in blocks of 6 seconds).
pub open spec fn voting_end(voting_period: u64, expedited_period: u64, expedited: bool, has_messages: bool, now: u64) -> Option<nat> {
    if expedited {
        add64(now as nat, expedited_period as nat * 6)
    } else if has_messages && voting_period < 7 * BLOCKS_PER_DAY {
        add64(now as nat, (7 * BLOCKS_PER_DAY * 6) as nat)
    } else {
        add64(now as nat, voting_period as nat * 6)
    }
}

/// The aligned power of a new proposal: its submitter's power, where it
/// reaches the required stake and voting is quadratic, the required stake
/// plus the square root of the excess.
pub open spec fn initial_alignment(power: u128, required: u128, quadratic: bool) -> Option<nat> {
    if power >= required && quadratic {
        match sqrt_floor((power - required) as u128) {
            Some(s) => if required + s < u128_limit() { Some(required as nat + s) } else { None },
            None => None,
        }
    } else {
        Some(power as nat)
    }
}

/// The outcome of submitting a proposal (see `submit_proposal`).
pub open spec fn submit_outcome(
    old: &Governance,
    new: &Governance,
    r: Result<u64, GovError>,
    sender: Seq<char>,
    title: Seq<char>,
    description: Seq<char>,
    link: Option<Seq<char>>,
    messages: Option<Seq<(u64, Seq<u8>)>>,
    recipient: Option<Seq<char>>,
    non_vested_total: u128,
    power: Result<(u128, bool), GovError>,
    now: u64,
    height: u64,
) -> bool {
    let c = old.config;
    &&& r is Err ==> new.active() == old.active() && new.pending() == old.pending()
        && new.proposal_count == old.proposal_count
    &&& if non_vested_total < c.minimum_total_stake {
        r matches Err(GovError::InsufficientTotalStake { minimum }) && minimum == c.minimum_total_stake
    } else if let Err(e) = power {
        r matches Err(x) && x == e
    } else {
        let (p, expedited) = power->Ok_0;
        let end = voting_end(c.proposal_voting_period, c.expedited_proposal_voting_period, expedited, messages is Some, now);
        let delayed = match end { Some(e) => add64(e, c.proposal_effective_delay as nat * 6), None => None };
        let expiration = match delayed { Some(d) => add64(d, c.proposal_expiration_period as nat * 6), None => None };
        let aligned = initial_alignment(p, c.proposal_required_stake, c.quadratic_voting);
        let pending_end = add64(now as nat, (BLOCKS_PER_DAY * 6) as nat);
        if p == 0 {
            r matches Err(GovError::NoVotingPower)
        } else if old.proposal_count == u64::MAX || end is None || delayed is None || expiration is None {
            r matches Err(GovError::Overflow)
        } else if proposal_fault(title, description, link, texts(c.whitelisted_links@)) is Some {
            r == Err::<u64, GovError>(GovError::InvalidProposal {
                reason: proposal_fault(title, description, link, texts(c.whitelisted_links@))->0 })
        } else if aligned is None || (aligned->0 < c.proposal_required_stake && pending_end is None) {
            r matches Err(GovError::Overflow)
        } else {
            let id = (old.proposal_count + 1) as u64;
            let is_pending = aligned->0 < c.proposal_required_stake;
            let prop = ProposalView {
                proposal_id: id,
                submitter: match recipient { Some(x) => x, None => sender },
                status: ProposalStatus::Active,
                aligned_power: aligned->0 as u128,
                for_power: 0,
                against_power: 0,
                amendment_power: 0,
                removal_power: 0,
                aligned_voters: seq![sender],
                for_voters: Seq::empty(),
                against_voters: Seq::empty(),
                amendment_voters: Seq::empty(),
                removal_voters: Seq::empty(),
                start_block: height,
                start_time: now,
                end_block: (if is_pending { pending_end->0 } else { end->0 }) as u64,
                delayed_end_block: delayed->0 as u64,
                expiration_block: expiration->0 as u64,
                title,
                description,
                link,
                messages,
            };
            &&& r == Ok::<u64, GovError>(id)
            &&& new.proposal_count == id
            &&& if is_pending {
                upserted(old.pending(), new.pending(), id_text(id), prop) && new.active() == old.active()
            } else {
                upserted(old.active(), new.active(), id_text(id), prop) && new.pending() == old.pending()
            }
        }
    }
}

fn checked_add64(a: u64, b: u64) -> (r: Option<u64>)
    ensures
        match add64(a as nat, b as nat) {
            Some(v) => r == Some(v as u64),
            None => r is None,
        },
{
    a.checked_add(b)
}

fn checked_mul64(a: u64, b: u64) -> (r: Option<u64>)
    ensures
        a as nat * b as nat <= u64::MAX ==> r == Some((a as nat * b as nat) as u64),
        a as nat * b as nat > u64::MAX ==> r is None,
{
    a.checked_mul(b)
}

/// The texts of the voters.
fn copy_text(s: &String) -> (r: String)
    ensures
        r@ == s@,
{
    s.clone()
}

impl Governance {
    /// Submit a proposal for `sender` (or for the vesting `recipient`), at
    /// time `now` and block `height`, where the stake not vesting totals
    /// `non_vested_total` and `power` is the submitter's voting power with
    /// whether it may be expedited (see `calc_voting_power`). A proposal
    /// aligned below the required stake waits for a day as pending.
    /// Answers the new proposal's id.
    pub fn submit_proposal(
        &mut self,
        sender: &String,
        title: String,
        description: String,
        link: Option<String>,
        messages: Option<Vec<ProposalMessage>>,
        recipient: Option<String>,
        non_vested_total: u128,
        power: Result<(u128, bool), GovError>,
        now: u64,
        height: u64,
    ) -> (r: Result<u64, GovError>)
        requires
            old(self).wf(),
        ensures
            final(self).wf(),
            final(self).config == old(self).config,
            submit_outcome(old(self), final(self), r, sender@, title@, description@,
                match link { Some(l) => Some(l@), None => None },
                match messages { Some(m) => Some(messages_view(m@)), None => None },
                match recipient { Some(x) => Some(x@), None => None },
                non_vested_total, power, now, height),
    {
        if non_vested_total < self.config.minimum_total_stake {
            return Err(GovError::InsufficientTotalStake { minimum: self.config.minimum_total_stake });
        }
        let (p, expedited) = match power {
            Ok(x) => x,
            Err(e) => return Err(e),
        };
        if p == 0 {
            return Err(GovError::NoVotingPower);
        }
        if self.proposal_count == u64::MAX {
            return Err(GovError::Overflow);
        }
        let id = self.proposal_count + 1;
        let c = &self.config;
        let period = if expedited {
            c.expedited_proposal_voting_period
        } else if messages.is_some() && c.proposal_voting_period < 7 * BLOCKS_PER_DAY {
            7 * BLOCKS_PER_DAY
        } else {
            c.proposal_voting_period
        };
        let span = match checked_mul64(period, 6) { Some(v) => v, None => return Err(GovError::Overflow) };
        let end = match checked_add64(now, span) { Some(v) => v, None => return Err(GovError::Overflow) };
        let delay = match checked_mul64(c.proposal_effective_delay, 6) { Some(v) => v, None => return Err(GovError::Overflow) };
        let delayed = match checked_add64(end, delay) { Some(v) => v, None => return Err(GovError::Overflow) };
        let exp_span = match checked_mul64(c.proposal_expiration_period, 6) { Some(v) => v, None => return Err(GovError::Overflow) };
        let expiration = match checked_add64(delayed, exp_span) { Some(v) => v, None => return Err(GovError::Overflow) };
        match validate_proposal(&title, &description, &link, &c.whitelisted_links) {
            Ok(()) => {},
            Err(reason) => return Err(GovError::InvalidProposal { reason }),
        }
        let required = c.proposal_required_stake;
        let aligned: u128 = if p >= required && c.quadratic_voting {
            let s = match uint_sqrt_floor(p - required) { Some(s) => s, None => return Err(GovError::Overflow) };
            match required.checked_add(s) { Some(a) => a, None => return Err(GovError::Overflow) }
        } else {
            p
        };
        let is_pending = aligned < required;
        let end_block = if is_pending {
            match checked_add64(now, BLOCKS_PER_DAY * 6) { Some(v) => v, None => return Err(GovError::Overflow) }
        } else {
            end
        };
        let submitter = match recipient {
            Some(x) => x,
            None => copy_text(sender),
        };
        let mut aligned_voters: Vec<String> = Vec::new();
        aligned_voters.push(copy_text(sender));
        let prop = Proposal {
            proposal_id: id,
            submitter,
            status: ProposalStatus::Active,
            aligned_power: aligned,
            for_power: 0,
            against_power: 0,
            amendment_power: 0,
            removal_power: 0,
            aligned_voters,
            for_voters: Vec::new(),
            against_voters: Vec::new(),
            amendment_voters: Vec::new(),
            removal_voters: Vec::new(),
            start_block: height,
            start_time: now,
            end_block,
            delayed_end_block: delayed,
            expiration_block: expiration,
            title,
            description,
            link,
            messages,
        };
        proof {
            assert(texts(prop.aligned_voters@) =~= seq![sender@]);
            assert(texts(prop.for_voters@) =~= Seq::<Seq<char>>::empty());
            assert(texts(prop.against_voters@) =~= Seq::<Seq<char>>::empty());
            assert(texts(prop.amendment_voters@) =~= Seq::<Seq<char>>::empty());
            assert(texts(prop.removal_voters@) =~= Seq::<Seq<char>>::empty());
        }
        let key = id_key(id);
        self.proposal_count = id;
        if is_pending {
            save_entry(&mut self.pending_proposals, key, prop);
        } else {
            save_entry(&mut self.proposals, key, prop);
        }
        Ok(id)
    }
}

} // verus!
