//! Casting votes on proposals.
use vstd::prelude::*;
use crate::keys::{key_index, lemma_key_index, keys_sorted};
use crate::math::{fraction, u128_limit};
use crate::decimal::dmul;
use crate::governance::state::{Governance, Proposal, ProposalView, ProposalVoteOption, ProposalMessage, GovError, texts, messages_view,
    entries_view, entry_keys, id_text, id_key, sqrt_floor, uint_sqrt_floor};
use crate::governance::entries::{entry_index, lemma_entry_index, upserted, removed, find_entry, save_entry,
    remove_entry};
use crate::decimal::{decimal_from_ratio, decimal_checked_mul};

verus! {

/// `a - b` where it is not below zero.
pub open spec fn sub_opt(a: u128, b: u128) -> Option<u128> {
    if a >= b { Some((a - b) as u128) } else { None }
}

/// `a + b` where it fits in 128 bits.
pub open spec fn add_opt(a: u128, b: u128) -> Option<u128> {
    if a + b < u128_limit() { Some((a + b) as u128) } else { None }
}

/// The proposal without the earlier vote of `voter`: the first of the
/// lists For, Against, Amend, Remove and Align that holds them loses their
/// first entry, and its power `power`; `None` where that goes below zero.
pub open spec fn without_vote(p: ProposalView, voter: Seq<char>, power: u128) -> Option<ProposalView> {
    if let Some(i) = key_index(p.for_voters, voter) {
        match sub_opt(p.for_power, power) {
            Some(x) => Some(ProposalView { for_voters: p.for_voters.remove(i), for_power: x, ..p }),
            None => None,
        }
    } else if let Some(i) = key_index(p.against_voters, voter) {
        match sub_opt(p.against_power, power) {
            Some(x) => Some(ProposalView { against_voters: p.against_voters.remove(i), against_power: x, ..p }),
            None => None,
        }
    } else if let Some(i) = key_index(p.amendment_voters, voter) {
        match sub_opt(p.amendment_power, power) {
            Some(x) => Some(ProposalView { amendment_voters: p.amendment_voters.remove(i), amendment_power: x, ..p }),
            None => None,
        }
    } else if let Some(i) = key_index(p.removal_voters, voter) {
        match sub_opt(p.removal_power, power) {
            Some(x) => Some(ProposalView { removal_voters: p.removal_voters.remove(i), removal_power: x, ..p }),
            None => None,
        }
    } else if let Some(i) = key_index(p.aligned_voters, voter) {
        match sub_opt(p.aligned_power, power) {
            Some(x) => Some(ProposalView { aligned_voters: p.aligned_voters.remove(i), aligned_power: x, ..p }),
            None => None,
        }
    } else {
        Some(p)
    }
}

/// The square of a voting power, as the decimal `power` times itself
/// rounded up to an integer; `None` where a decimal overflows.
pub open spec fn squared(power: u128) -> Option<nat> {
    let d = power as nat * fraction();
    if d >= u128_limit() || dmul(d, d) >= u128_limit() {
        None
    } else {
        let m = dmul(d, d);
        Some(if m == 0 { 0 } else { 1 + ((m - 1) as nat / fraction()) })
    }
}

/// An alignment of `power` on a proposal aligned `aligned`, below the
/// required stake `required` with quadratic voting: the power squared is
/// added, and where that reaches the stake, the excess is square-rooted.
/// Answers the new aligned power and the power counted.
pub open spec fn quadratic_alignment(aligned: u128, power: u128, required: u128) -> Option<(nat, nat)> {
    match squared(power) {
        None => None,
        Some(sq) => if aligned + sq >= u128_limit() {
            None
        } else if aligned + sq >= required {
            match sqrt_floor((aligned + sq - required) as u128) {
                Some(s) => if required + s < u128_limit() { Some((required as nat + s, sq)) } else { None },
                None => None,
            }
        } else {
            Some((aligned as nat + sq, sq))
        },
    }
}

/// The proposal with the vote of `voter` with `power` for `option` added
/// (after `without_vote`), and the power counted. Only alignment is open on
/// a pending proposal.
pub open spec fn with_vote(p: ProposalView, voter: Seq<char>, option: ProposalVoteOption, power: u128,
    pending: bool, quadratic: bool, required: u128) -> Result<(ProposalView, u128), GovError> {
    match option {
        ProposalVoteOption::Align => {
            if quadratic && p.aligned_power < required {
                match quadratic_alignment(p.aligned_power, power, required) {
                    Some((a, sq)) => Ok((ProposalView { aligned_power: a as u128, aligned_voters: p.aligned_voters.push(voter), ..p }, sq as u128)),
                    None => Err(GovError::Overflow),
                }
            } else {
                match add_opt(p.aligned_power, power) {
                    Some(a) => Ok((ProposalView { aligned_power: a, aligned_voters: p.aligned_voters.push(voter), ..p }, power)),
                    None => Err(GovError::Overflow),
                }
            }
        },
        _ => if pending {
            Err(GovError::ProposalNotActive)
        } else {
            match option {
                ProposalVoteOption::For => match add_opt(p.for_power, power) {
                    Some(x) => Ok((ProposalView { for_power: x, for_voters: p.for_voters.push(voter), ..p }, power)),
                    None => Err(GovError::Overflow),
                },
                ProposalVoteOption::Against => match add_opt(p.against_power, power) {
                    Some(x) => Ok((ProposalView { against_power: x, against_voters: p.against_voters.push(voter), ..p }, power)),
                    None => Err(GovError::Overflow),
                },
                ProposalVoteOption::Amend => match add_opt(p.amendment_power, power) {
                    Some(x) => Ok((ProposalView { amendment_power: x, amendment_voters: p.amendment_voters.push(voter), ..p }, power)),
                    None => Err(GovError::Overflow),
                },
                _ => match add_opt(p.removal_power, power) {
                    Some(x) => Ok((ProposalView { removal_power: x, removal_voters: p.removal_voters.push(voter), ..p }, power)),
                    None => Err(GovError::Overflow),
                },
            }
        },
    }
}

/// The outcome of `voter` voting on proposal `id` (see `cast_vote`).
pub open spec fn cast_vote_outcome(
    old: &Governance,
    new: &Governance,
    r: Result<u128, GovError>,
    voter: Seq<char>,
    id: u64,
    option: ProposalVoteOption,
    recipient: Option<Seq<char>>,
    now: u64,
    power: Result<(u128, bool), GovError>,
) -> bool {
    let key = id_text(id);
    let in_active = entry_index(old.active(), key);
    let in_pending = entry_index(old.pending(), key);
    let pending = in_active is None;
    let p = if let Some(i) = in_active { old.active()[i].1 } else { old.pending()[in_pending->0].1 };
    let c = old.config;
    &&& new.proposal_count == old.proposal_count
    &&& r is Err ==> new.active() == old.active() && new.pending() == old.pending()
    &&& if in_active is None && in_pending is None {
        r matches Err(GovError::ProposalNotFound)
    } else if p.submitter == voter || (recipient matches Some(x) && p.submitter == x) {
        r matches Err(GovError::Unauthorized)
    } else if now > p.end_block {
        r matches Err(GovError::VotingPeriodEnded)
    } else if let Err(e) = power {
        r matches Err(x) && x == e
    } else if power->Ok_0.0 == 0 {
        r matches Err(GovError::NoVotingPower)
    } else {
        let vp = power->Ok_0.0;
        match without_vote(p, voter, vp) {
            None => r matches Err(GovError::Overflow),
            Some(p1) => match with_vote(p1, voter, option, vp, pending, c.quadratic_voting, c.proposal_required_stake) {
                Err(e) => r matches Err(x) && x == e,
                Ok((p2, counted)) => {
                    &&& r == Ok::<u128, GovError>(counted)
                    &&& if option == ProposalVoteOption::Align && p2.aligned_power >= c.proposal_required_stake {
                        upserted(old.active(), new.active(), key, p2) && removed(old.pending(), new.pending(), key)
                    } else if pending {
                        new.pending() == old.pending().update(in_pending->0, (key, p2)) && new.active() == old.active()
                    } else {
                        new.active() == old.active().update(in_active->0, (key, p2)) && new.pending() == old.pending()
                    }
                },
            },
        }
    }
}

/// The index of the first of the voters that is `voter`.
fn find_voter(voters: &Vec<String>, voter: &String) -> (r: Option<usize>)
    ensures
        match r {
            Some(i) => key_index(texts(voters@), voter@) == Some(i as int),
            None => key_index(texts(voters@), voter@) is None,
        },
{
    let ghost ks = texts(voters@);
    let mut i: usize = 0;
    while i < voters.len()
        invariant
            i <= voters.len(),
            ks == texts(voters@),
            key_index(ks.take(i as int), voter@) is None,
        decreases voters.len() - i,
    {
        assert(ks.take(i + 1).drop_last() =~= ks.take(i as int));
        assert(ks.take(i + 1).last() == voters@[i as int]@);
        if voters[i] == *voter {
            proof { crate::keys::lemma_key_index_prefix(ks, voter@, i as int); }
            return Some(i);
        }
        i = i + 1;
    }
    assert(ks.take(voters.len() as int) =~= ks);
    None
}

/// Take voter `i` out of the list.
fn remove_voter(voters: &mut Vec<String>, i: usize)
    requires
        i < old(voters)@.len(),
    ensures
        texts(final(voters)@) == texts(old(voters)@).remove(i as int),
{
    let ghost before = texts(voters@);
    voters.remove(i);
    assert(texts(voters@) =~= before.remove(i as int));
}

/// Add a voter at the end of the list.
fn push_voter(voters: &mut Vec<String>, voter: &String)
    ensures
        texts(final(voters)@) == texts(old(voters)@).push(voter@),
{
    let ghost before = texts(voters@);
    voters.push(voter.clone());
    assert(texts(voters@) =~= before.push(voter@));
}

/// Take the earlier vote of `voter` out of the proposal (see `without_vote`).
fn take_out_vote(p: &mut Proposal, voter: &String, power: u128) -> (ok: bool)
    ensures
        match without_vote(old(p)@, voter@, power) {
            Some(p1) => ok && final(p)@ == p1,
            None => !ok && final(p)@ == old(p)@,
        },
{
    proof {
        lemma_key_index(texts(p.for_voters@), voter@);
        lemma_key_index(texts(p.against_voters@), voter@);
        lemma_key_index(texts(p.amendment_voters@), voter@);
        lemma_key_index(texts(p.removal_voters@), voter@);
        lemma_key_index(texts(p.aligned_voters@), voter@);
    }
    if let Some(i) = find_voter(&p.for_voters, voter) {
        if p.for_power < power { return false; }
        remove_voter(&mut p.for_voters, i);
        p.for_power = p.for_power - power;
    } else if let Some(i) = find_voter(&p.against_voters, voter) {
        if p.against_power < power { return false; }
        remove_voter(&mut p.against_voters, i);
        p.against_power = p.against_power - power;
    } else if let Some(i) = find_voter(&p.amendment_voters, voter) {
        if p.amendment_power < power { return false; }
        remove_voter(&mut p.amendment_voters, i);
        p.amendment_power = p.amendment_power - power;
    } else if let Some(i) = find_voter(&p.removal_voters, voter) {
        if p.removal_power < power { return false; }
        remove_voter(&mut p.removal_voters, i);
        p.removal_power = p.removal_power - power;
    } else if let Some(i) = find_voter(&p.aligned_voters, voter) {
        if p.aligned_power < power { return false; }
        remove_voter(&mut p.aligned_voters, i);
        p.aligned_power = p.aligned_power - power;
    }
    true
}

/// The square of a voting power (see `squared`).
fn square_power(power: u128) -> (r: Option<u128>)
    ensures
        match squared(power) {
            Some(v) => r == Some(v as u128) && v < u128_limit(),
            None => r is None,
        },
{
    let d = decimal_from_ratio(power, 1)?;
    assert(d as nat == power as nat * fraction()) by {
        assert((power as nat * fraction()) / 1 == power as nat * fraction());
    }
    let m = decimal_checked_mul(d, d)?;
    if m == 0 {
        Some(0)
    } else {
        Some(1 + (m - 1) / 1_000_000_000_000_000_000u128)
    }
}

/// Add the vote of `voter` to the proposal (see `with_vote`).
fn put_in_vote(p: &mut Proposal, voter: &String, option: ProposalVoteOption, power: u128, pending: bool,
    quadratic: bool, required: u128) -> (r: Result<u128, GovError>)
    ensures
        match with_vote(old(p)@, voter@, option, power, pending, quadratic, required) {
            Ok((p2, counted)) => r == Ok::<u128, GovError>(counted) && final(p)@ == p2,
            Err(e) => r matches Err(x) && x == e,
        },
{
    match option {
        ProposalVoteOption::Align => {
            if quadratic && p.aligned_power < required {
                let sq = match square_power(power) { Some(v) => v, None => return Err(GovError::Overflow) };
                let a = match p.aligned_power.checked_add(sq) { Some(v) => v, None => return Err(GovError::Overflow) };
                let a = if a >= required {
                    let s = match uint_sqrt_floor(a - required) { Some(v) => v, None => return Err(GovError::Overflow) };
                    match required.checked_add(s) { Some(v) => v, None => return Err(GovError::Overflow) }
                } else {
                    a
                };
                p.aligned_power = a;
                push_voter(&mut p.aligned_voters, voter);
                Ok(sq)
            } else {
                let a = match p.aligned_power.checked_add(power) { Some(v) => v, None => return Err(GovError::Overflow) };
                p.aligned_power = a;
                push_voter(&mut p.aligned_voters, voter);
                Ok(power)
            }
        },
        _ => {
            if pending {
                return Err(GovError::ProposalNotActive);
            }
            match option {
                ProposalVoteOption::For => {
                    p.for_power = match p.for_power.checked_add(power) { Some(v) => v, None => return Err(GovError::Overflow) };
                    push_voter(&mut p.for_voters, voter);
                },
                ProposalVoteOption::Against => {
                    p.against_power = match p.against_power.checked_add(power) { Some(v) => v, None => return Err(GovError::Overflow) };
                    push_voter(&mut p.against_voters, voter);
                },
                ProposalVoteOption::Amend => {
                    p.amendment_power = match p.amendment_power.checked_add(power) { Some(v) => v, None => return Err(GovError::Overflow) };
                    push_voter(&mut p.amendment_voters, voter);
                },
                _ => {
                    p.removal_power = match p.removal_power.checked_add(power) { Some(v) => v, None => return Err(GovError::Overflow) };
                    push_voter(&mut p.removal_voters, voter);
                },
            }
            Ok(power)
        },
    }
}


/// Copies of the strings.
pub fn copy_texts(v: &Vec<String>) -> (r: Vec<String>)
    ensures
        texts(r@) == texts(v@),
{
    let mut r: Vec<String> = Vec::new();
    let mut i: usize = 0;
    while i < v.len()
        invariant
            i <= v.len(),
            texts(r@) == texts(v@).take(i as int),
        decreases v.len() - i,
    {
        let ghost before = texts(r@);
        r.push(v[i].clone());
        assert(texts(r@) =~= before.push(v@[i as int]@));
        assert(texts(v@).take(i + 1) =~= texts(v@).take(i as int).push(v@[i as int]@));
        i = i + 1;
    }
    assert(texts(v@).take(v.len() as int) =~= texts(v@));
    r
}

/// Copies of the messages.
pub fn copy_messages(v: &Vec<ProposalMessage>) -> (r: Vec<ProposalMessage>)
    ensures
        messages_view(r@) == messages_view(v@),
{
    let mut r: Vec<ProposalMessage> = Vec::new();
    let mut i: usize = 0;
    while i < v.len()
        invariant
            i <= v.len(),
            messages_view(r@) == messages_view(v@).take(i as int),
        decreases v.len() - i,
    {
        let ghost before = messages_view(r@);
        let m = ProposalMessage { order: v[i].order, msg: v[i].msg.clone() };
        r.push(m);
        assert(messages_view(r@) =~= before.push((v@[i as int].order, v@[i as int].msg@)));
        assert(messages_view(v@).take(i + 1) =~= messages_view(v@).take(i as int).push((v@[i as int].order, v@[i as int].msg@)));
        i = i + 1;
    }
    assert(messages_view(v@).take(v.len() as int) =~= messages_view(v@));
    r
}

impl Proposal {
    pub fn copy(&self) -> (r: Proposal)
        ensures
            r@ == self@,
    {
        Proposal {
            proposal_id: self.proposal_id,
            submitter: self.submitter.clone(),
            status: self.status,
            aligned_power: self.aligned_power,
            for_power: self.for_power,
            against_power: self.against_power,
            amendment_power: self.amendment_power,
            removal_power: self.removal_power,
            aligned_voters: copy_texts(&self.aligned_voters),
            for_voters: copy_texts(&self.for_voters),
            against_voters: copy_texts(&self.against_voters),
            amendment_voters: copy_texts(&self.amendment_voters),
            removal_voters: copy_texts(&self.removal_voters),
            start_block: self.start_block,
            start_time: self.start_time,
            end_block: self.end_block,
            delayed_end_block: self.delayed_end_block,
            expiration_block: self.expiration_block,
            title: self.title.clone(),
            description: self.description.clone(),
            link: match &self.link { Some(l) => Some(l.clone()), None => None },
            messages: match &self.messages { Some(m) => Some(copy_messages(m)), None => None },
        }
    }
}

/// Put `p` in place of entry `i`, which is under `key`.
pub fn replace_entry(v: &mut Vec<(String, Proposal)>, i: usize, key: String, p: Proposal)
    requires
        i < old(v)@.len(),
        old(v)@[i as int].0@ == key@,
        keys_sorted(entry_keys(entries_view(old(v)@))),
    ensures
        keys_sorted(entry_keys(entries_view(final(v)@))),
        entries_view(final(v)@) == entries_view(old(v)@).update(i as int, (key@, p@)),
{
    let ghost before = entries_view(v@);
    let ghost e = (key@, p@);
    v.set(i, (key, p));
    assert(entries_view(v@) =~= before.update(i as int, e));
    assert(entry_keys(entries_view(v@)) =~= entry_keys(before));
}

impl Governance {
    /// Vote `option` on proposal `proposal_id` for `sender` at time `now`,
    /// with `power` as `calc_voting_power` answers at the proposal's start;
    /// an earlier vote of the sender is replaced. An alignment that brings
    /// a pending proposal to the required stake makes it active. Answers the
    /// power counted.
    pub fn cast_vote(&mut self, sender: &String, proposal_id: u64, option: ProposalVoteOption,
        recipient: Option<String>, now: u64, power: Result<(u128, bool), GovError>) -> (r: Result<u128, GovError>)
        requires
            old(self).wf(),
        ensures
            final(self).wf(),
            final(self).config == old(self).config,
            cast_vote_outcome(old(self), final(self), r, sender@, proposal_id, option,
                match recipient { Some(x) => Some(x@), None => None }, now, power),
    {
        let key = id_key(proposal_id);
        let ghost active = self.active();
        let ghost pend = self.pending();
        proof {
            lemma_entry_index(active, key@);
            lemma_entry_index(pend, key@);
        }
        let (pending, idx) = match find_entry(&self.proposals, &key) {
            Some(i) => (false, i),
            None => match find_entry(&self.pending_proposals, &key) {
                Some(i) => (true, i),
                None => return Err(GovError::ProposalNotFound),
            },
        };
        let mut p = if pending { self.pending_proposals[idx].1.copy() } else { self.proposals[idx].1.copy() };
        assert(pending ==> p@ == pend[idx as int].1);
        assert(!pending ==> p@ == active[idx as int].1);
        if p.submitter == *sender {
            return Err(GovError::Unauthorized);
        }
        if let Some(x) = &recipient {
            if p.submitter == *x {
                return Err(GovError::Unauthorized);
            }
        }
        if now > p.end_block {
            return Err(GovError::VotingPeriodEnded);
        }
        let vp = match power {
            Ok((v, _)) => v,
            Err(e) => return Err(e),
        };
        if vp == 0 {
            return Err(GovError::NoVotingPower);
        }
        if !take_out_vote(&mut p, sender, vp) {
            return Err(GovError::Overflow);
        }
        let required = self.config.proposal_required_stake;
        let counted = put_in_vote(&mut p, sender, option, vp, pending, self.config.quadratic_voting, required)?;
        if option == ProposalVoteOption::Align && p.aligned_power >= required {
            let _gone = remove_entry(&mut self.pending_proposals, &key);
            save_entry(&mut self.proposals, key, p);
        } else if pending {
            replace_entry(&mut self.pending_proposals, idx, key, p);
        } else {
            replace_entry(&mut self.proposals, idx, key, p);
        }
        Ok(counted)
    }
}

} // verus!
