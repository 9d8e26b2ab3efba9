//! What holds of the governance contract across its operations.
use vstd::prelude::*;
use crate::keys::{key_index, lemma_key_index, lemma_key_index_prefix, keys_sorted};
use crate::decimal::{ddiv, dmul, is_isqrt, lemma_decimal_sqrt_floor, lemma_isqrt, isqrt};
use crate::governance::state::{Governance, Config, ProposalView, ProposalStatus, ProposalVoteOption, GovError,
    entry_keys, id_text, sqrt_floor, sqrt_ceil};
use crate::governance::entries::{entry_index, lemma_entry_index, upserted, removed};
use crate::governance::voting::{without_vote, with_vote, cast_vote_outcome};
use crate::governance::proposals::{submit_outcome, initial_alignment};
use crate::governance::validation::proposal_fault;
use crate::governance::state::texts;
use crate::governance::power::{voting_power_spec, vested_power, GovStake, Allocation, Delegation, VESTING_CAP,
    total_power_spec, terms_sum, staker_term, recipient_term, first_of_staker, stakes_of, stake_sum, stake_counts,
    of_staker, stake_part};
use crate::governance::ending::{end_decision, quorum_alignment, applied_threshold, share};
use crate::governance::admin::execute_outcome;
use crate::governance::queries::option_voters;

verus! {

/// Whether a voter is `v`.
pub open spec fn is_voter(v: Seq<char>) -> spec_fn(Seq<char>) -> bool {
    |x: Seq<char>| x == v
}

/// How often `v` occurs among `s`.
pub open spec fn count_of(s: Seq<Seq<char>>, v: Seq<char>) -> nat {
    s.filter(is_voter(v)).len()
}

/// How many votes `voter` holds on proposal `p`, over all options.
pub open spec fn votes_of(p: ProposalView, voter: Seq<char>) -> nat {
    count_of(p.for_voters, voter) + count_of(p.against_voters, voter) + count_of(p.amendment_voters, voter)
        + count_of(p.removal_voters, voter) + count_of(p.aligned_voters, voter)
}

proof fn lemma_count_push(s: Seq<Seq<char>>, x: Seq<char>, v: Seq<char>)
    ensures
        count_of(s.push(x), v) == count_of(s, v) + (if x == v { 1nat } else { 0nat }),
{
    s.lemma_filter_push(x, is_voter(v));
}

proof fn lemma_count_remove(s: Seq<Seq<char>>, i: int, v: Seq<char>)
    requires
        0 <= i < s.len(),
        s[i] == v,
    ensures
        count_of(s.remove(i), v) + 1 == count_of(s, v),
{
    let pred = is_voter(v);
    let a = s.take(i);
    let b = s.skip(i + 1);
    assert(s =~= a + (seq![s[i]] + b));
    assert(s.remove(i) =~= a + b);
    Seq::filter_distributes_over_add(a, seq![s[i]] + b, pred);
    Seq::filter_distributes_over_add(seq![s[i]], b, pred);
    Seq::filter_distributes_over_add(a, b, pred);
    Seq::<Seq<char>>::empty().lemma_filter_push(s[i], pred);
    assert(Seq::<Seq<char>>::empty().push(s[i]) =~= seq![s[i]]);
    assert(Seq::<Seq<char>>::empty().filter(pred) =~= Seq::<Seq<char>>::empty());
}

proof fn lemma_count_absent(s: Seq<Seq<char>>, v: Seq<char>)
    requires
        key_index(s, v) is None,
    ensures
        count_of(s, v) == 0,
    decreases s.len(),
{
    lemma_key_index(s, v);
    if s.len() > 0 {
        assert(key_index(s.drop_last(), v) is None);
        lemma_count_absent(s.drop_last(), v);
        assert(s.drop_last().push(s.last()) =~= s);
        lemma_count_push(s.drop_last(), s.last(), v);
    }
}

/// One vote per voter: where `voter` holds at most one vote on a proposal,
/// taking back their earlier vote leaves them none, and their new vote
/// leaves them exactly one, under the option they chose.
pub proof fn law_one_vote_per_voter(p: ProposalView, voter: Seq<char>, option: ProposalVoteOption, power: u128,
    pending: bool, quadratic: bool, required: u128)
    requires
        votes_of(p, voter) <= 1,
    ensures
        match without_vote(p, voter, power) {
            None => true,
            Some(p1) => votes_of(p1, voter) == 0 && match with_vote(p1, voter, option, power, pending, quadratic, required) {
                Err(_) => true,
                Ok((p2, _)) => votes_of(p2, voter) == 1 && option_voters(p2, option).contains(voter),
            },
        },
{
    if let Some(i) = key_index(p.for_voters, voter) {
        lemma_key_index(p.for_voters, voter);
        lemma_count_remove(p.for_voters, i, voter);
    } else if let Some(i) = key_index(p.against_voters, voter) {
        lemma_count_absent(p.for_voters, voter);
        lemma_key_index(p.against_voters, voter);
        lemma_count_remove(p.against_voters, i, voter);
    } else if let Some(i) = key_index(p.amendment_voters, voter) {
        lemma_count_absent(p.for_voters, voter);
        lemma_count_absent(p.against_voters, voter);
        lemma_key_index(p.amendment_voters, voter);
        lemma_count_remove(p.amendment_voters, i, voter);
    } else if let Some(i) = key_index(p.removal_voters, voter) {
        lemma_count_absent(p.for_voters, voter);
        lemma_count_absent(p.against_voters, voter);
        lemma_count_absent(p.amendment_voters, voter);
        lemma_key_index(p.removal_voters, voter);
        lemma_count_remove(p.removal_voters, i, voter);
    } else if let Some(i) = key_index(p.aligned_voters, voter) {
        lemma_count_absent(p.for_voters, voter);
        lemma_count_absent(p.against_voters, voter);
        lemma_count_absent(p.amendment_voters, voter);
        lemma_count_absent(p.removal_voters, voter);
        lemma_key_index(p.aligned_voters, voter);
        lemma_count_remove(p.aligned_voters, i, voter);
    } else {
        lemma_count_absent(p.for_voters, voter);
        lemma_count_absent(p.against_voters, voter);
        lemma_count_absent(p.amendment_voters, voter);
        lemma_count_absent(p.removal_voters, voter);
        lemma_count_absent(p.aligned_voters, voter);
    }
    if let Some(p1) = without_vote(p, voter, power) {
        assert(votes_of(p1, voter) == 0);
        if let Ok((p2, _)) = with_vote(p1, voter, option, power, pending, quadratic, required) {
            lemma_count_push(p1.for_voters, voter, voter);
            lemma_count_push(p1.against_voters, voter, voter);
            lemma_count_push(p1.amendment_voters, voter, voter);
            lemma_count_push(p1.removal_voters, voter, voter);
            lemma_count_push(p1.aligned_voters, voter, voter);
            let chosen = option_voters(p2, option);
            assert(chosen.last() == voter);
            assert(chosen[chosen.len() - 1] == voter);
        }
    }
}

/// A proposal is executed at most once: once an execution succeeded, the
/// next execution of the same proposal is refused as not passed.
pub proof fn law_executed_once(g0: Governance, g1: Governance, g2: Governance, r1: Result<Seq<(u64, Seq<u8>)>, GovError>,
    r2: Result<Seq<(u64, Seq<u8>)>, GovError>, id: u64, t1: u64, t2: u64)
    requires
        g0.wf(),
        execute_outcome(&g0, &g1, r1, id, t1),
        r1 is Ok,
        execute_outcome(&g1, &g2, r2, id, t2),
    ensures
        r2 matches Err(GovError::ProposalNotPassed),
{
    let key = id_text(id);
    lemma_entry_index(g0.active(), key);
    let i = entry_index(g0.active(), key)->0;
    let p = g0.active()[i].1;
    assert(entry_keys(g1.active()) =~= entry_keys(g0.active()));
    assert(g1.active()[i].1.status == ProposalStatus::Executed);
}

/// A saved proposal is found under its key with what was saved.
pub proof fn law_saved_proposal_found(old: Seq<(Seq<char>, ProposalView)>, new: Seq<(Seq<char>, ProposalView)>,
    key: Seq<char>, p: ProposalView)
    requires
        keys_sorted(entry_keys(old)),
        upserted(old, new, key, p),
    ensures
        entry_index(new, key) matches Some(i) && new[i] == (key, p),
{
    lemma_entry_index(old, key);
    match entry_index(old, key) {
        Some(i) => {
            assert(entry_keys(new) =~= entry_keys(old));
        },
        None => {
            let pos = choose|pos: int| 0 <= pos <= old.len() && new == old.insert(pos, (key, p));
            let ks = entry_keys(new);
            assert(ks[pos] == key);
            assert forall|j: int| 0 <= j < pos implies ks.take(pos)[j] != key by {
                assert(ks.take(pos)[j] == old[j].0);
            }
            lemma_key_index(ks.take(pos), key);
            if let Some(j) = key_index(ks.take(pos), key) {
                assert(ks.take(pos)[j] != key);
            }
            lemma_key_index_prefix(ks, key, pos);
        },
    }
}

/// A removed proposal is no longer found under its key.
pub proof fn law_removed_proposal_not_found(old: Seq<(Seq<char>, ProposalView)>, new: Seq<(Seq<char>, ProposalView)>,
    key: Seq<char>)
    requires
        keys_sorted(entry_keys(old)),
        removed(old, new, key),
    ensures
        entry_index(new, key) is None,
{
    lemma_entry_index(old, key);
    lemma_entry_index(new, key);
    if let Some(i) = entry_index(old, key) {
        if let Some(j) = entry_index(new, key) {
            let j2 = if j < i { j } else { j + 1 };
            assert(new[j] == old[j2]);
            assert(entry_keys(old)[j2] == key && entry_keys(old)[i] == key);
            crate::keys::lemma_key_order(key, key, key);
            assert(false);
        }
    }
}

/// A proposal passes only with quorum: the votes and the alignment counted
/// reach the required share of the total voting power, and the For votes
/// reach the threshold that applies.
pub proof fn law_passing_needs_quorum(p: ProposalView, c: Config, tvp: u128)
    requires
        end_decision(p, c, tvp) matches Ok((p2, _)) && p2.status == ProposalStatus::Passed,
    ensures
        ({
            let total = (p.for_power + p.against_power + p.amendment_power + p.removal_power) as nat;
            let aligned = if tvp != 0 { quorum_alignment(p.aligned_power, c.proposal_required_stake, c.quadratic_voting) }
                else { Some(p.aligned_power as nat) };
            &&& aligned is Some
            &&& tvp != 0 ==> ddiv((total + aligned->0) as nat, tvp as nat) >= c.proposal_required_quorum
            &&& tvp == 0 ==> c.proposal_required_quorum == 0
            &&& share(p.for_power as nat, total) >= applied_threshold(p, total, c.proposal_required_threshold)
        }),
{
}

/// The proposal stored under `key`: among the active ones first, else
/// among the pending ones.
pub open spec fn stored(g: Governance, key: Seq<char>) -> Option<ProposalView> {
    match entry_index(g.active(), key) {
        Some(i) => Some(g.active()[i].1),
        None => match entry_index(g.pending(), key) {
            Some(i) => Some(g.pending()[i].1),
            None => None,
        },
    }
}

/// A vote counts once: where the voter held at most one vote on the
/// proposal, after a successful vote the stored proposal holds exactly one
/// vote of theirs, under the option they chose.
pub proof fn law_cast_vote_counts_once(old: Governance, new: Governance, r: Result<u128, GovError>, voter: Seq<char>,
    id: u64, option: ProposalVoteOption, recipient: Option<Seq<char>>, now: u64, power: Result<(u128, bool), GovError>)
    requires
        old.wf(),
        cast_vote_outcome(&old, &new, r, voter, id, option, recipient, now, power),
        r is Ok,
        stored(old, id_text(id)) matches Some(p) && votes_of(p, voter) <= 1,
    ensures
        stored(new, id_text(id)) matches Some(p2) && votes_of(p2, voter) == 1 && option_voters(p2, option).contains(voter),
{
    let key = id_text(id);
    let c = old.config;
    let in_active = entry_index(old.active(), key);
    let in_pending = entry_index(old.pending(), key);
    let pending = in_active is None;
    let p = stored(old, key)->0;
    let vp = power->Ok_0.0;
    lemma_entry_index(old.active(), key);
    lemma_entry_index(old.pending(), key);
    law_one_vote_per_voter(p, voter, option, vp, pending, c.quadratic_voting, c.proposal_required_stake);
    let p1 = without_vote(p, voter, vp)->0;
    let p2 = with_vote(p1, voter, option, vp, pending, c.quadratic_voting, c.proposal_required_stake)->Ok_0.0;
    if option == ProposalVoteOption::Align && p2.aligned_power >= c.proposal_required_stake {
        law_saved_proposal_found(old.active(), new.active(), key, p2);
    } else if pending {
        let j = in_pending->0;
        assert(entry_keys(new.pending()) =~= entry_keys(old.pending()));
        assert(entry_index(new.active(), key) is None);
        assert(new.pending()[j] == (key, p2));
    } else {
        let j = in_active->0;
        assert(entry_keys(new.active()) =~= entry_keys(old.active()));
        assert(new.active()[j] == (key, p2));
    }
}

/// A proposal is accepted only with enough total stake, some voting power
/// and valid texts, and then under the next id; texts that are not valid
/// are always refused.
pub proof fn law_submitted_proposal_valid(old: Governance, new: Governance, r: Result<u64, GovError>, sender: Seq<char>,
    title: Seq<char>, description: Seq<char>, link: Option<Seq<char>>, messages: Option<Seq<(u64, Seq<u8>)>>,
    recipient: Option<Seq<char>>, non_vested_total: u128, power: Result<(u128, bool), GovError>, now: u64, height: u64)
    requires
        submit_outcome(&old, &new, r, sender, title, description, link, messages, recipient, non_vested_total, power,
            now, height),
    ensures
        r matches Ok(id) ==> {
            &&& id == old.proposal_count + 1
            &&& new.proposal_count == id
            &&& non_vested_total >= old.config.minimum_total_stake
            &&& power matches Ok((p, _)) && p > 0
            &&& proposal_fault(title, description, link, texts(old.config.whitelisted_links@)) is None
        },
        proposal_fault(title, description, link, texts(old.config.whitelisted_links@)) is Some ==> r is Err,
        proposal_fault(title, description, link, texts(old.config.whitelisted_links@)) is Some
            ==> new.proposal_count == old.proposal_count,
{
}

/// Vesting power is capped: what a vesting allocation counts for is what is
/// left of it times the multiplier, and never more than 19% of the stake
/// that is not vesting.
pub proof fn law_vesting_power_capped(a: Allocation, multiplier: u128, non_vested: u128)
    ensures
        vested_power(a, multiplier, non_vested) matches Some(v) ==> {
            &&& v <= dmul(non_vested as nat, VESTING_CAP as nat)
            &&& v <= dmul((a.amount - a.amount_withdrawn) as nat, multiplier as nat)
        },
{
}

/// Only the vesting contract's recipient keeps a proposal expedited: power
/// counted without a recipient, or without an allocation, never is.
pub proof fn law_expedited_needs_vesting(stakes: Option<Seq<GovStake>>, allocation: Option<Allocation>,
    delegations: Option<Seq<(Seq<char>, Seq<Delegation>, Seq<Delegation>)>>, sender: Seq<char>,
    recipient: Option<Seq<char>>, start: u64, expedited: bool, quadratic: bool, multiplier: u128, non_vested: u128)
    ensures
        voting_power_spec(stakes, allocation, delegations, sender, recipient, start, expedited, quadratic, multiplier,
            non_vested) matches Ok((_, e)) && e ==> expedited && recipient == Some(sender) && allocation is Some,
{
}

/// Quadratic voting takes the integer square root: where `x` fits as a
/// decimal, the rounded-down square root `s` of `x` has `s * s <= x <
/// (s + 1) * (s + 1)`.
pub proof fn law_sqrt_floor_is_integer_root(x: u128)
    ensures
        sqrt_floor(x) is Some <==> x as nat * crate::math::fraction() < crate::math::u128_limit(),
        sqrt_floor(x) matches Some(s) ==> is_isqrt(s, x as nat),
{
    lemma_decimal_sqrt_floor(x as nat);
}

/// A new proposal's alignment with quadratic voting: power at or above the
/// required stake counts as the stake plus the integer square root of the
/// excess; power below it counts as it is.
pub proof fn law_initial_alignment(power: u128, required: u128)
    ensures
        power >= required ==> (initial_alignment(power, required, true) matches Some(a)
            ==> a >= required && is_isqrt((a - required) as nat, (power - required) as nat)),
        power < required ==> initial_alignment(power, required, true) == Some(power as nat),
{
    if power >= required {
        law_sqrt_floor_is_integer_root((power - required) as u128);
    }
}

/// What entry `k` adds to the total voting power without quadratic
/// voting, overflow aside.
pub open spec fn plain_term(entries: Seq<(Seq<char>, GovStake)>, k: int, start: u64) -> nat {
    if first_of_staker(entries, k) { stake_sum(stakes_of(entries, entries[k].0), start) } else { 0 }
}

/// The sum of the first `n` plain terms.
pub open spec fn plain_terms(entries: Seq<(Seq<char>, GovStake)>, n: nat, start: u64) -> nat
    decreases n,
{
    if n == 0 { 0 } else { plain_terms(entries, (n - 1) as nat, start) + plain_term(entries, n - 1, start) }
}

/// Whether staker `w` has one of the first `m` entries.
pub open spec fn occurs(entries: Seq<(Seq<char>, GovStake)>, w: Seq<char>, m: nat) -> bool
    decreases m,
{
    m > 0 && (occurs(entries, w, (m - 1) as nat) || entries[m - 1].0 == w)
}

/// The sum of the present terms.
pub open spec fn some_sum(terms: Seq<Option<nat>>) -> nat
    decreases terms.len(),
{
    if terms.len() == 0 {
        0
    } else {
        some_sum(terms.drop_last()) + match terms.last() { Some(t) => t, None => 0 }
    }
}

proof fn lemma_occurs(entries: Seq<(Seq<char>, GovStake)>, w: Seq<char>, m: nat)
    requires
        m <= entries.len(),
    ensures
        occurs(entries, w, m) <==> exists|j: int| 0 <= j < m && #[trigger] entries[j].0 == w,
    decreases m,
{
    if m > 0 {
        lemma_occurs(entries, w, (m - 1) as nat);
        if occurs(entries, w, (m - 1) as nat) {
            let j = choose|j: int| 0 <= j < m - 1 && #[trigger] entries[j].0 == w;
            assert(0 <= j < m && entries[j].0 == w);
        }
        if entries[m - 1].0 == w {
            assert(0 <= m - 1 < m && entries[m - 1].0 == w);
        }
    }
}

proof fn lemma_stakes_of_push(p: Seq<(Seq<char>, GovStake)>, e: (Seq<char>, GovStake), w: Seq<char>)
    ensures
        stakes_of(p.push(e), w) == if e.0 == w { stakes_of(p, w).push(e.1) } else { stakes_of(p, w) },
{
    let pred = of_staker(w);
    let f = stake_part();
    p.lemma_filter_push(e, pred);
    if e.0 == w {
        assert(p.filter(pred).push(e).map_values(f) =~= p.filter(pred).map_values(f).push(e.1));
    }
}

proof fn lemma_stake_sum_push(s: Seq<GovStake>, g: GovStake, start: u64)
    ensures
        stake_sum(s.push(g), start) == stake_sum(s, start) + if stake_counts(g, start) { g.amount as nat } else { 0 },
{
    assert(s.push(g).drop_last() =~= s);
}

/// The first `m` plain terms of `p` with `e` appended: those of `p`, and
/// the stake of `e` for the first entry of its staker among them.
proof fn lemma_plain_terms_push(p: Seq<(Seq<char>, GovStake)>, e: (Seq<char>, GovStake), m: nat, start: u64)
    requires
        m <= p.len(),
    ensures
        plain_terms(p.push(e), m, start) == plain_terms(p, m, start)
            + if occurs(p, e.0, m) && stake_counts(e.1, start) { e.1.amount as nat } else { 0 },
    decreases m,
{
    if m > 0 {
        let k = m - 1;
        let q = p.push(e);
        lemma_plain_terms_push(p, e, (m - 1) as nat, start);
        assert(first_of_staker(q, k) == first_of_staker(p, k)) by {
            assert forall|j: int| 0 <= j < k implies q[j] == p[j] by {}
            assert(q[k] == p[k]);
        }
        lemma_stakes_of_push(p, e, p[k].0);
        lemma_stake_sum_push(stakes_of(p, p[k].0), e.1, start);
        if p[k].0 == e.0 {
            lemma_occurs(p, e.0, k as nat);
            if first_of_staker(p, k) {
                if occurs(p, e.0, k as nat) {
                    let j = choose|j: int| 0 <= j < k && #[trigger] p[j].0 == e.0;
                    assert(p[j].0 != p[k].0);
                }
            } else {
                let j = choose|j: int| 0 <= j < k && #[trigger] p[j].0 == p[k].0;
                assert(p[j].0 == e.0);
                assert(occurs(p, e.0, k as nat));
            }
        }
    }
}

/// The plain terms of all entries add up to all the stakes that count.
proof fn lemma_plain_terms_total(entries: Seq<(Seq<char>, GovStake)>, start: u64)
    ensures
        plain_terms(entries, entries.len(), start)
            == stake_sum(entries.map_values(stake_part()), start),
    decreases entries.len(),
{
    if entries.len() > 0 {
        let p = entries.drop_last();
        let e = entries.last();
        let n = p.len();
        assert(p.push(e) =~= entries);
        lemma_plain_terms_total(p, start);
        lemma_plain_terms_push(p, e, n, start);
        // The last entry's own term.
        lemma_occurs(p, e.0, n);
        lemma_stakes_of_push(p, e, e.0);
        if occurs(p, e.0, n) {
            let j = choose|j: int| 0 <= j < n && #[trigger] p[j].0 == e.0;
            assert(entries[j].0 == entries[n as int].0);
            assert(!first_of_staker(entries, n as int));
        } else {
            assert(first_of_staker(entries, n as int)) by {
                assert forall|j: int| 0 <= j < n implies #[trigger] entries[j].0 != entries[n as int].0 by {
                    assert(entries[j] == p[j]);
                }
            }
            assert(stakes_of(p, e.0) =~= Seq::<GovStake>::empty()) by {
                let pred = of_staker(e.0);
                assert forall|j: int| 0 <= j < p.len() implies !pred(p[j]) by {
                    if p[j].0 == e.0 {
                        assert(exists|i: int| 0 <= i < n && #[trigger] p[i].0 == e.0);
                    }
                }
                p.lemma_all_neg_filter_empty(pred);
            }
            lemma_stake_sum_push(Seq::<GovStake>::empty(), e.1, start);
        }
        let f = stake_part();
        assert(entries.map_values(f) =~= p.map_values(f).push(e.1));
        lemma_stake_sum_push(p.map_values(f), e.1, start);
    }
}

/// A sum that does not overflow is the sum of its terms, all present.
proof fn lemma_terms_sum_some(terms: Seq<Option<nat>>)
    requires
        terms_sum(terms) is Some,
    ensures
        terms_sum(terms) == Some(some_sum(terms)),
        forall|k: int| 0 <= k < terms.len() ==> (#[trigger] terms[k]) is Some,
    decreases terms.len(),
{
    if terms.len() > 0 {
        lemma_terms_sum_some(terms.drop_last());
        assert forall|k: int| 0 <= k < terms.len() implies (#[trigger] terms[k]) is Some by {
            if k < terms.len() - 1 {
                assert(terms.drop_last()[k] == terms[k]);
            }
        }
    }
}

proof fn lemma_some_sum_add(a: Seq<Option<nat>>, b: Seq<Option<nat>>)
    ensures
        some_sum(a + b) == some_sum(a) + some_sum(b),
    decreases b.len(),
{
    if b.len() == 0 {
        assert(a + b =~= a);
    } else {
        assert((a + b).drop_last() =~= a + b.drop_last());
        lemma_some_sum_add(a, b.drop_last());
    }
}

/// The present staker terms, without quadratic voting, are the plain ones.
proof fn lemma_staker_terms_plain(entries: Seq<(Seq<char>, GovStake)>, n: nat, start: u64)
    requires
        n <= entries.len(),
        forall|k: int| 0 <= k < n ==> (#[trigger] staker_term(entries, k, start, false)) is Some,
    ensures
        some_sum(Seq::new(n, |k: int| staker_term(entries, k, start, false))) == plain_terms(entries, n, start),
    decreases n,
{
    if n > 0 {
        let ts = Seq::new(n, |k: int| staker_term(entries, k, start, false));
        assert(ts.drop_last() =~= Seq::new((n - 1) as nat, |k: int| staker_term(entries, k, start, false)));
        lemma_staker_terms_plain(entries, (n - 1) as nat, start);
        assert(staker_term(entries, n - 1, start, false) is Some);
    }
}

/// Each staker counts once, with all their stakes: without quadratic
/// voting, the total voting power is the sum of all the stakes that count
/// plus what the vesting recipients add.
pub proof fn law_total_power_counts_each_stake_once(entries: Seq<(Seq<char>, GovStake)>,
    recipients: Seq<Option<Allocation>>, non_vested: u128, start: u64, multiplier: u128)
    ensures
        total_power_spec(entries, recipients, non_vested, start, false, multiplier) matches Some(t) ==>
            t == stake_sum(entries.map_values(stake_part()), start)
                + some_sum(recipients.map_values(|a: Option<Allocation>| recipient_term(a, multiplier, non_vested, false))),
{
    let st = Seq::new(entries.len(), |k: int| staker_term(entries, k, start, false));
    let rt = recipients.map_values(|a: Option<Allocation>| recipient_term(a, multiplier, non_vested, false));
    if total_power_spec(entries, recipients, non_vested, start, false, multiplier) is Some {
        lemma_terms_sum_some(st + rt);
        assert forall|k: int| 0 <= k < entries.len() implies (#[trigger] staker_term(entries, k, start, false)) is Some by {
            assert((st + rt)[k] == st[k]);
        }
        lemma_some_sum_add(st, rt);
        lemma_staker_terms_plain(entries, entries.len(), start);
        lemma_plain_terms_total(entries, start);
    }
}

/// A stake that started unstaking, or that was made at or after the
/// proposal's start, adds nothing to a voter's power: the power over the
/// stakes with it is the power over the stakes without it.
pub proof fn law_stake_not_counting_adds_nothing(stakes: Seq<GovStake>, g: GovStake, allocation: Option<Allocation>,
    delegations: Option<Seq<(Seq<char>, Seq<Delegation>, Seq<Delegation>)>>, sender: Seq<char>,
    recipient: Option<Seq<char>>, start: u64, expedited: bool, quadratic: bool, multiplier: u128, non_vested: u128)
    requires
        g.unstake_start_time is Some || g.stake_time >= start,
    ensures
        voting_power_spec(Some(stakes.push(g)), allocation, delegations, sender, recipient, start, expedited, quadratic,
            multiplier, non_vested)
            == voting_power_spec(Some(stakes), allocation, delegations, sender, recipient, start, expedited, quadratic,
            multiplier, non_vested),
{
    assert(stakes.push(g).drop_last() =~= stakes);
    assert(stake_sum(stakes.push(g), start) == stake_sum(stakes, start));
}

/// A stake made before the proposal's start and not unstaking adds its
/// amount to the power of a voter who votes for themselves, without
/// quadratic voting or delegations, where neither power overflows.
pub proof fn law_counting_stake_adds_its_amount(stakes: Seq<GovStake>, g: GovStake, sender: Seq<char>, start: u64,
    expedited: bool, multiplier: u128, non_vested: u128)
    requires
        g.unstake_start_time is None,
        g.stake_time < start,
        voting_power_spec(Some(stakes), None, None, sender, None, start, expedited, false, multiplier, non_vested) is Ok,
        voting_power_spec(Some(stakes.push(g)), None, None, sender, None, start, expedited, false, multiplier,
            non_vested) is Ok,
    ensures
        voting_power_spec(Some(stakes.push(g)), None, None, sender, None, start, expedited, false, multiplier,
            non_vested)->Ok_0.0
            == voting_power_spec(Some(stakes), None, None, sender, None, start, expedited, false, multiplier,
            non_vested)->Ok_0.0 + g.amount,
{
    assert(stakes.push(g).drop_last() =~= stakes);
    assert(stake_sum(stakes.push(g), start) == stake_sum(stakes, start) + g.amount);
}

/// A sum with a zero term added in the middle is the same sum.
proof fn lemma_terms_sum_zero(a: Seq<Option<nat>>, b: Seq<Option<nat>>)
    ensures
        terms_sum(a.push(Some(0nat)) + b) == terms_sum(a + b),
    decreases b.len(),
{
    if b.len() == 0 {
        assert(a.push(Some(0nat)) + b =~= a.push(Some(0nat)));
        assert(a + b =~= a);
        assert(a.push(Some(0nat)).drop_last() =~= a);
        if a.len() > 0 {
            assert(terms_sum(a) matches Some(x) ==> x < crate::math::u128_limit());
        }
    } else {
        assert((a.push(Some(0nat)) + b).drop_last() =~= a.push(Some(0nat)) + b.drop_last());
        assert((a + b).drop_last() =~= a + b.drop_last());
        assert((a.push(Some(0nat)) + b).last() == b.last());
        assert((a + b).last() == b.last());
        lemma_terms_sum_zero(a, b.drop_last());
    }
}

/// The rounded-up square root of zero is zero.
proof fn lemma_sqrt_ceil_zero()
    ensures
        sqrt_ceil(0) == Some(0nat),
{
    lemma_isqrt(0);
    let r = isqrt(0);
    assert(r == 0) by (nonlinear_arith)
        requires r * r <= 0;
}

/// A stake that started unstaking, or was made at or after the proposal's
/// start, adds nothing to the total voting power either: the total over the
/// stakers' entries with it is the total without it.
pub proof fn law_total_ignores_stake_not_counting(entries: Seq<(Seq<char>, GovStake)>, w: Seq<char>, g: GovStake,
    recipients: Seq<Option<Allocation>>, non_vested: u128, start: u64, quadratic: bool, multiplier: u128)
    requires
        g.unstake_start_time is Some || g.stake_time >= start,
    ensures
        total_power_spec(entries.push((w, g)), recipients, non_vested, start, quadratic, multiplier)
            == total_power_spec(entries, recipients, non_vested, start, quadratic, multiplier),
{
    let e2 = entries.push((w, g));
    let n = entries.len();
    let old_terms = Seq::new(n, |k: int| staker_term(entries, k, start, quadratic));
    let new_terms = Seq::new(n + 1, |k: int| staker_term(e2, k, start, quadratic));
    let rt = recipients.map_values(|a: Option<Allocation>| recipient_term(a, multiplier, non_vested, quadratic));
    assert forall|k: int| 0 <= k < n implies #[trigger] staker_term(e2, k, start, quadratic)
        == staker_term(entries, k, start, quadratic) by {
        assert(first_of_staker(e2, k) == first_of_staker(entries, k)) by {
            assert forall|j: int| 0 <= j < k implies e2[j] == entries[j] by {}
            assert(e2[k] == entries[k]);
        }
        lemma_stakes_of_push(entries, (w, g), entries[k].0);
        lemma_stake_sum_push(stakes_of(entries, entries[k].0), g, start);
    }
    // The new entry's own term is zero.
    lemma_stakes_of_push(entries, (w, g), w);
    lemma_stake_sum_push(stakes_of(entries, w), g, start);
    if first_of_staker(e2, n as int) {
        assert(stakes_of(entries, w) =~= Seq::<GovStake>::empty()) by {
            let pred = of_staker(w);
            assert forall|j: int| 0 <= j < entries.len() implies !pred(entries[j]) by {
                assert(e2[j] == entries[j]);
            }
            entries.lemma_all_neg_filter_empty(pred);
        }
        lemma_stake_sum_push(Seq::<GovStake>::empty(), g, start);
        lemma_sqrt_ceil_zero();
    }
    assert(staker_term(e2, n as int, start, quadratic) == Some(0nat));
    assert(new_terms =~= old_terms.push(Some(0nat)));
    lemma_terms_sum_zero(old_terms, rt);
}

} // verus!
