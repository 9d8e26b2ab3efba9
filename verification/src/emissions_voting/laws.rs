//! Properties of the emissions-voting contract across operations.
use vstd::prelude::*;
use crate::keys::{lemma_key_index, lemma_key_order};
use crate::emissions_voting::state::{GraphType, RecordView, UserVote, EmissionsVoting, VotingError, power_sum,
    weight_sum, voters};
use crate::emissions_voting::graphs::{graph_index, vote_index, lemma_graph_index, lemma_vote_index};
use crate::emissions_voting::power::{voting_power_of, StakeDeposit, LockedDeposit, Locked, power_terms, lock_multiplier};
use crate::emissions_voting::votes::{vote_outcome, remove_vote_outcome, weighted_average, base_totals, others_kept};

verus! {

/// The result of a whole-number graph is the average of its votes weighted
/// by their voting power: the sum of value times power over the total power.
pub proof fn law_result_is_weighted_average(ev: EmissionsVoting, i: int)
    requires
        ev.wf(),
        0 <= i < ev.records().len(),
        ev.records()[i].graph.graph_type == GraphType::Uint128,
        ev.records()[i].total > 0,
    ensures
        ({
            let g = ev.records()[i];
            weighted_average(g) == weight_sum(GraphType::Uint128, g.votes) / power_sum(g.votes)
        }),
{
    assert(ev.records()[i].wf());
}

/// A vote of a voter who had none can be taken back, and taking it back
/// leaves the graphs as they were.
pub proof fn law_vote_then_remove_restores(
    before: EmissionsVoting,
    voted: EmissionsVoting,
    after: EmissionsVoting,
    r1: Result<(), VotingError>,
    r2: Result<(), VotingError>,
    voter: Seq<char>,
    label: Seq<char>,
    text: Seq<char>,
    value: Option<u128>,
    power: u128,
)
    requires
        before.wf(),
        voted.wf(),
        graph_index(before.records(), label) matches Some(i) && vote_index(before.records()[i].votes, voter) is None,
        vote_outcome(before.records(), voted.records(), r1, voter, label, text, value, power),
        remove_vote_outcome(voted.records(), after.records(), r2, voter, label),
        r1 is Ok,
    ensures
        r2 is Ok,
        after.records() == before.records(),
{
    let old = before.records();
    let mid = voted.records();
    let i = graph_index(old, label)->Some_0;
    lemma_graph_index(old, label);
    let g = old[i];
    assert(old[i].wf());
    let v = UserVote { voted_value: value->0, voting_power: power, period_start: g.graph.current_period_start };
    let e = (voter, v);
    assert(base_totals(g, voter) == (g.total as nat, g.weighted_sum as nat));
    let pos = choose|pos: int| 0 <= pos <= g.votes.len() && mid[i].votes == g.votes.insert(pos, e);
    assert(mid[i].votes == g.votes.insert(pos, e));
    // The voter's vote is found where it was placed.
    assert(labels_kept(old, mid, i));
    assert(graph_index(mid, label) == Some(i)) by {
        assert(crate::emissions_voting::state::labels(mid) =~= crate::emissions_voting::state::labels(old));
    }
    lemma_vote_index(g.votes, voter);
    assert(voters(mid[i].votes) =~= voters(g.votes).insert(pos, voter));
    lemma_key_index(voters(mid[i].votes), voter);
    assert(mid[i].votes[pos].0 == voter);
    lemma_vote_index(mid[i].votes, voter);
    assert(voters(mid[i].votes)[pos] == voter);
    assert(vote_index(mid[i].votes, voter) is Some);
    let j = vote_index(mid[i].votes, voter)->Some_0;
    assert(j == pos) by {
        lemma_vote_index(mid[i].votes, voter);
        if j != pos {
            assert(mid[i].votes[j].0 == voter);
            assert(mid[i].wf());
            assert(voters(mid[i].votes)[j] == voters(mid[i].votes)[pos]);
            if j < pos {
                assert(crate::keys::key_lt(voters(mid[i].votes)[j], voters(mid[i].votes)[pos]));
            } else {
                assert(crate::keys::key_lt(voters(mid[i].votes)[pos], voters(mid[i].votes)[j]));
            }
            lemma_key_order(voter, voter, voter);
        }
    }
    assert(mid[i].votes[pos].1.period_start == mid[i].graph.current_period_start);
    assert(vote_index(mid[i].votes, voter) == Some(pos));
    assert(graph_index(voted.records(), label) == Some(i));
    assert(r2 is Ok);
    assert(mid[i].votes.remove(pos) =~= g.votes);
    assert(after.records() =~= old);
}

/// The labels of all records are unchanged where only record `i` changed
/// and kept its graph.
pub open spec fn labels_kept(old: Seq<RecordView>, new: Seq<RecordView>, i: int) -> bool {
    &&& others_kept(old, new, i)
    &&& new[i].graph == old[i].graph
}

/// A stake that started unstaking adds nothing to a voter's power: the
/// power over the stakes with it is the power over the stakes without it.
pub proof fn law_unstaking_stake_adds_nothing(disco: Seq<LockedDeposit>, stakes: Seq<StakeDeposit>, s: StakeDeposit,
    now: u64)
    requires
        s.unstake_start_time is Some,
    ensures
        voting_power_of(disco, stakes.push(s), now) == voting_power_of(disco, stakes, now),
{
    let pred = |x: StakeDeposit| x.unstake_start_time is None;
    stakes.lemma_filter_push(s, pred);
    assert(power_terms(disco, stakes.push(s)) =~= power_terms(disco, stakes));
}

/// An unlocked stake that is not unstaking adds its amount to a voter's
/// power, where neither power overflows.
pub proof fn law_unlocked_stake_adds_its_amount(disco: Seq<LockedDeposit>, stakes: Seq<StakeDeposit>, s: StakeDeposit,
    now: u64)
    requires
        s.unstake_start_time is None,
        s.locked is None,
        voting_power_of(disco, stakes, now) is Some,
        voting_power_of(disco, stakes.push(s), now) is Some,
    ensures
        voting_power_of(disco, stakes.push(s), now)->0 == voting_power_of(disco, stakes, now)->0 + s.amount,
{
    let pred = |x: StakeDeposit| x.unstake_start_time is None;
    stakes.lemma_filter_push(s, pred);
    let t0 = power_terms(disco, stakes);
    let t1 = power_terms(disco, stakes.push(s));
    assert(t1 =~= t0.push((s.amount, s.locked)));
    assert(t1.drop_last() =~= t0);
}

/// A deposit weighs one plus the whole days it stays locked: a lock ending
/// `days` whole days and `extra` seconds (less than a day) after `now`
/// weighs `days + 1`; a perpetual lock of `days` days weighs `days + 1`;
/// an ended lock, or none, weighs one.
pub proof fn law_lock_multiplier_counts_whole_days(now: u64, days: nat, extra: nat, perpetual: u64)
    ensures
        now + days * 86_400 + extra <= u64::MAX && extra < 86_400 ==> lock_multiplier(Some(Locked {
            locked_until: (now + days * 86_400 + extra) as u64, perpetual_lock: None }), now) == days + 1,
        forall|until: u64| until <= now ==> lock_multiplier(Some(Locked { locked_until: until, perpetual_lock: None }),
            now) == 1,
        forall|until: u64| lock_multiplier(Some(Locked { locked_until: until, perpetual_lock: Some(perpetual) }), now)
            == perpetual + 1,
        lock_multiplier(None, now) == 1,
{
    if now + days * 86_400 + extra <= u64::MAX && extra < 86_400 {
        let until = (now + days * 86_400 + extra) as u64;
        if days > 0 || extra > 0 {
            assert((until - now) as nat == days * 86_400 + extra);
            assert((days * 86_400 + extra) / 86_400 == days) by (nonlinear_arith)
                requires extra < 86_400;
        }
    }
}

} // verus!
