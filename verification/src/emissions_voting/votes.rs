//! Voting on a graph, retracting a vote, and ending a period.
use vstd::prelude::*;
use crate::keys::{keys_sorted, lemma_sorted_insert, lemma_sorted_remove};
use crate::math::{fraction, u128_limit};
use crate::decimal::{ddiv, decimal_checked_mul, decimal_checked_div, decimal_from_micro, uint128_text,
    decimal_text, uint128_to_string, decimal_to_string};
use crate::emissions_voting::state::{GraphType, RecordView, UserVote, PeriodResult, EmissionsVoting, VotingError,
    SECONDS_PER_DAY, MAX_HISTORY_SIZE, contribution, power_sum, weight_sum, labels, voters, votes_view,
    lemma_sums_update, lemma_sums_insert, lemma_sums_remove};
use crate::emissions_voting::graphs::{graph_index, vote_index, lemma_graph_index, lemma_vote_index, find_graph,
    find_vote, vote_insert_position, parsed_value, parse_value};

verus! {

/// `a - b`, or 0 where `b` exceeds `a`.
pub open spec fn sat_sub(a: nat, b: nat) -> nat {
    if a >= b { (a - b) as nat } else { 0 }
}

/// The totals of graph `g` once the vote of `voter` in the current period,
/// if any, is taken out.
pub open spec fn base_totals(g: RecordView, voter: Seq<char>) -> (nat, nat) {
    match vote_index(g.votes, voter) {
        Some(j) => if g.votes[j].1.period_start == g.graph.current_period_start {
            (sat_sub(g.total as nat, g.votes[j].1.voting_power as nat),
                sat_sub(g.weighted_sum as nat, contribution(g.graph.graph_type, g.votes[j].1)))
        } else {
            (g.total as nat, g.weighted_sum as nat)
        },
        None => (g.total as nat, g.weighted_sum as nat),
    }
}

/// How a value of a graph of type `t` is written.
pub open spec fn value_text(t: GraphType, v: u128) -> Seq<char> {
    match t {
        GraphType::Uint128 => uint128_text(v),
        GraphType::Decimal => decimal_text(v),
    }
}

/// `new` is `old` with the entry `e` in place of the entry with its key, or
/// inserted where there is none.
pub open spec fn vote_placed(old: Seq<(Seq<char>, UserVote)>, new: Seq<(Seq<char>, UserVote)>, e: (Seq<char>, UserVote)) -> bool {
    match vote_index(old, e.0) {
        Some(j) => new == old.update(j, e),
        None => exists|pos: int| 0 <= pos <= old.len() && new == old.insert(pos, e),
    }
}

/// The records are those of `old` but for record `i`.
pub open spec fn others_kept(old: Seq<RecordView>, new: Seq<RecordView>, i: int) -> bool {
    &&& new.len() == old.len()
    &&& forall|j: int| 0 <= j < old.len() && j != i ==> #[trigger] new[j] == old[j]
}

/// The outcome of `voter` voting the parsed value `value` (written `text`)
/// with voting power `power` on graph `label`.
pub open spec fn vote_outcome(old: Seq<RecordView>, new: Seq<RecordView>, r: Result<(), VotingError>,
    voter: Seq<char>, label: Seq<char>, text: Seq<char>, value: Option<u128>, power: u128) -> bool {
    &&& r is Err ==> new == old
    &&& match graph_index(old, label) {
        None => r matches Err(VotingError::GraphNotFound { label: l }) && l@ == label,
        Some(i) => {
            let g = old[i];
            let t = g.graph.graph_type;
            let (base_total, base_sum) = base_totals(g, voter);
            let v = UserVote { voted_value: value->0, voting_power: power, period_start: g.graph.current_period_start };
            if power == 0 {
                r matches Err(VotingError::NoVotingPower)
            } else if value is None {
                r matches Err(VotingError::InvalidVoteValue { value: s }) && s@ == text
            } else if value->0 < g.graph.range_min || value->0 > g.graph.range_max {
                r matches Err(VotingError::VoteOutOfRange { value: s, min, max }) && s@ == text
                    && min@ == value_text(t, g.graph.range_min) && max@ == value_text(t, g.graph.range_max)
            } else if t == GraphType::Decimal && power as nat * 1_000_000_000_000nat >= u128_limit() {
                r matches Err(VotingError::VotingPowerConversion)
            } else if contribution(t, v) >= u128_limit() || base_sum + contribution(t, v) >= u128_limit()
                || base_total + power >= u128_limit() {
                r matches Err(VotingError::Overflow)
            } else {
                &&& r is Ok
                &&& others_kept(old, new, i)
                &&& new[i].graph == g.graph
                &&& new[i].history == g.history
                &&& new[i].total == base_total + power
                &&& new[i].weighted_sum == base_sum + contribution(t, v)
                &&& vote_placed(g.votes, new[i].votes, (voter, v))
            }
        },
    }
}

/// The outcome of `voter` taking back their vote on graph `label`.
pub open spec fn remove_vote_outcome(old: Seq<RecordView>, new: Seq<RecordView>, r: Result<(), VotingError>,
    voter: Seq<char>, label: Seq<char>) -> bool {
    &&& r is Err ==> new == old
    &&& match graph_index(old, label) {
        None => r matches Err(VotingError::GraphNotFound { label: l }) && l@ == label,
        Some(i) => {
            let g = old[i];
            match vote_index(g.votes, voter) {
                None => r matches Err(VotingError::NoVotes),
                Some(j) => if g.votes[j].1.period_start != g.graph.current_period_start {
                    r matches Err(VotingError::NoVotes)
                } else {
                    &&& r is Ok
                    &&& new == old.update(i, RecordView {
                        votes: g.votes.remove(j),
                        total: sat_sub(g.total as nat, g.votes[j].1.voting_power as nat) as u128,
                        weighted_sum: sat_sub(g.weighted_sum as nat, contribution(g.graph.graph_type, g.votes[j].1)) as u128,
                        ..g
                    })
                },
            }
        },
    }
}

/// The end of the current period of graph `g`, where it fits in 64 bits.
pub open spec fn period_end(g: RecordView) -> Option<u64> {
    let e = g.graph.current_period_start + g.graph.period_days * SECONDS_PER_DAY;
    if e <= u64::MAX { Some(e as u64) } else { None }
}

/// The weighted average of graph `g`: the weighted sum over the total power,
/// the power read as a decimal with 6 places for a decimal graph (as one
/// where that overflows).
pub open spec fn weighted_average(g: RecordView) -> nat {
    match g.graph.graph_type {
        GraphType::Uint128 => g.weighted_sum as nat / g.total as nat,
        GraphType::Decimal => {
            let d = if g.total as nat * 1_000_000_000_000nat < u128_limit() {
                g.total as nat * 1_000_000_000_000nat
            } else {
                fraction()
            };
            ddiv(g.weighted_sum as nat, d)
        },
    }
}

/// The history after recording `res`: the last `MAX_HISTORY_SIZE` results.
pub open spec fn capped_history(h: Seq<PeriodResult>, res: PeriodResult) -> Seq<PeriodResult> {
    let n = h.push(res);
    if n.len() > MAX_HISTORY_SIZE { n.skip(n.len() - MAX_HISTORY_SIZE) } else { n }
}

/// What ending a period tells the graph's callback contract.
#[derive(Debug)]
pub struct VotingResult {
    pub label: String,
    pub result_uint128: Option<u128>,
    pub result_decimal: Option<u128>,
    pub total_voting_power: u128,
    pub callback_contract: String,
}

/// The outcome of ending the period of graph `label` at time `now`.
pub open spec fn end_voting_outcome(old: Seq<RecordView>, new: Seq<RecordView>, r: Result<VotingResult, VotingError>,
    label: Seq<char>, now: u64) -> bool {
    &&& r is Err ==> new == old
    &&& match graph_index(old, label) {
        None => r matches Err(VotingError::GraphNotFound { label: l }) && l@ == label,
        Some(i) => {
            let g = old[i];
            match period_end(g) {
                None => r matches Err(VotingError::Overflow),
                Some(end) => if now < end {
                    r matches Err(VotingError::PeriodNotEnded { ends_at }) && ends_at == end
                } else if g.total == 0 {
                    r matches Err(VotingError::NoVotes)
                } else if weighted_average(g) >= u128_limit() {
                    r matches Err(VotingError::Overflow)
                } else {
                    let avg = weighted_average(g) as u128;
                    let res = PeriodResult {
                        period_start: g.graph.current_period_start,
                        period_end: end,
                        result_uint128: if g.graph.graph_type == GraphType::Uint128 { Some(avg) } else { None },
                        result_decimal: if g.graph.graph_type == GraphType::Decimal { Some(avg) } else { None },
                        total_voting_power: g.total,
                    };
                    &&& r matches Ok(out)
                    &&& out.label@ == label
                    &&& out.result_uint128 == res.result_uint128
                    &&& out.result_decimal == res.result_decimal
                    &&& out.total_voting_power == g.total
                    &&& out.callback_contract@ == g.graph.callback_contract
                    &&& new == old.update(i, RecordView {
                        graph: crate::emissions_voting::state::GraphView { current_period_start: now, ..g.graph },
                        votes: Seq::empty(),
                        total: 0,
                        weighted_sum: 0,
                        history: capped_history(g.history, res),
                    })
                },
            }
        },
    }
}

proof fn lemma_contribution_bounded(t: GraphType, s: Seq<(Seq<char>, UserVote)>, j: int)
    requires
        0 <= j < s.len(),
    ensures
        contribution(t, s[j].1) <= weight_sum(t, s),
        s[j].1.voting_power <= power_sum(s),
{
    lemma_sums_remove(t, s, j);
}

/// What the vote of `value` with `power` adds to the weighted sum of a graph
/// of type `t`.
fn vote_contribution(t: GraphType, value: u128, power: u128) -> (r: Result<u128, VotingError>)
    ensures
        t == GraphType::Decimal && power as nat * 1_000_000_000_000nat >= u128_limit()
            ==> (r matches Err(VotingError::VotingPowerConversion)),
        !(t == GraphType::Decimal && power as nat * 1_000_000_000_000nat >= u128_limit()) ==> {
            let c = contribution(t, UserVote { voted_value: value, voting_power: power, period_start: 0 });
            &&& c >= u128_limit() ==> (r matches Err(VotingError::Overflow))
            &&& c < u128_limit() ==> r == Ok::<u128, VotingError>(c as u128)
        },
{
    match t {
        GraphType::Uint128 => match value.checked_mul(power) {
            Some(c) => Ok(c),
            None => Err(VotingError::Overflow),
        },
        GraphType::Decimal => {
            let p = match decimal_from_micro(power) {
                Some(p) => p,
                None => return Err(VotingError::VotingPowerConversion),
            };
            match decimal_checked_mul(value, p) {
                Some(c) => Ok(c),
                None => Err(VotingError::Overflow),
            }
        },
    }
}

proof fn lemma_contribution_period(t: GraphType, v: UserVote, p: u64)
    ensures
        contribution(t, v) == contribution(t, UserVote { period_start: p, ..v }),
{
}

/// The votes with `e` placed, as `vote_placed` says, stay in voter order.
proof fn lemma_placed_sorted(old: Seq<(Seq<char>, UserVote)>, new: Seq<(Seq<char>, UserVote)>, e: (Seq<char>, UserVote), j: int)
    requires
        keys_sorted(voters(old)),
        0 <= j < old.len(),
        old[j].0 == e.0,
        new == old.update(j, e),
    ensures
        keys_sorted(voters(new)),
{
    assert(voters(new) =~= voters(old));
}

impl EmissionsVoting {
    /// Vote `vote_value` (read by the graph's type) on graph `label`, with
    /// the sender's voting power `voting_power`; a vote of the sender in the
    /// current period is replaced.
    pub fn vote(&mut self, sender: &String, label: &String, vote_value: &String, voting_power: u128) -> (r: Result<(), VotingError>)
        requires
            old(self).wf(),
        ensures
            final(self).wf(),
            final(self).config == old(self).config,
            vote_outcome(old(self).records(), final(self).records(), r, sender@, label@, vote_value@,
                match graph_index(old(self).records(), label@) {
                    Some(i) => parsed_value(old(self).records()[i].graph.graph_type, vote_value@),
                    None => None,
                },
                voting_power),
    {
        proof { lemma_graph_index(self.records(), label@); }
        let value = match find_graph(&self.graphs, label) {
            Some(i) => {
                assert(self.records()[i as int] == self.graphs@[i as int]@);
                parse_value(self.graphs[i].graph.graph_type, vote_value)
            },
            None => None,
        };
        self.vote_parsed(sender, label, vote_value, value, voting_power)
    }

    /// Vote on graph `label` with the value as parsed (`None` where the text
    /// `vote_value` did not parse).
    #[verifier::rlimit(30)]
    pub fn vote_parsed(&mut self, sender: &String, label: &String, vote_value: &String, value: Option<u128>,
        voting_power: u128) -> (r: Result<(), VotingError>)
        requires
            old(self).wf(),
        ensures
            final(self).wf(),
            final(self).config == old(self).config,
            vote_outcome(old(self).records(), final(self).records(), r, sender@, label@, vote_value@, value, voting_power),
    {
        let ghost before = self.records();
        let i = match find_graph(&self.graphs, label) {
            Some(i) => i,
            None => return Err(VotingError::GraphNotFound { label: label.clone() }),
        };
        proof { lemma_graph_index(before, label@); }
        if voting_power == 0 {
            return Err(VotingError::NoVotingPower);
        }
        let ghost g = before[i as int];
        assert(g == self.graphs@[i as int]@);
        assert(g.wf());
        let t = self.graphs[i].graph.graph_type;
        let current = self.graphs[i].graph.current_period_start;
        let idx = find_vote(&self.graphs[i].votes, sender);
        proof { lemma_vote_index(g.votes, sender@); }
        let mut base_total = self.graphs[i].total;
        let mut base_sum = self.graphs[i].weighted_sum;
        if let Some(j) = idx {
            let old_vote = self.graphs[i].votes[j].1;
            assert(old_vote == g.votes[j as int].1);
            if old_vote.period_start == current {
                proof { lemma_contribution_bounded(t, g.votes, j as int); }
                let old_c = match vote_contribution(t, old_vote.voted_value, old_vote.voting_power) {
                    Ok(c) => c,
                    Err(e) => {
                        proof {
                            lemma_contribution_period(t, old_vote, 0);
                        }
                        return Err(e);
                    },
                };
                proof { lemma_contribution_period(t, old_vote, 0); }
                base_total = base_total.saturating_sub(old_vote.voting_power);
                base_sum = base_sum.saturating_sub(old_c);
            }
        }
        assert(base_totals(g, sender@) == (base_total as nat, base_sum as nat));
        let value = match value {
            Some(v) => v,
            None => return Err(VotingError::InvalidVoteValue { value: vote_value.clone() }),
        };
        let min = self.graphs[i].graph.range_min;
        let max = self.graphs[i].graph.range_max;
        if value < min || value > max {
            let (min_text, max_text) = match t {
                GraphType::Uint128 => (uint128_to_string(min), uint128_to_string(max)),
                GraphType::Decimal => (decimal_to_string(min), decimal_to_string(max)),
            };
            return Err(VotingError::VoteOutOfRange { value: vote_value.clone(), min: min_text, max: max_text });
        }
        let v = UserVote { voted_value: value, voting_power, period_start: current };
        proof { lemma_contribution_period(t, v, 0); }
        let c = vote_contribution(t, value, voting_power)?;
        let new_sum = match base_sum.checked_add(c) {
            Some(s) => s,
            None => return Err(VotingError::Overflow),
        };
        let new_total = match base_total.checked_add(voting_power) {
            Some(s) => s,
            None => return Err(VotingError::Overflow),
        };
        let mut rec = self.graphs.remove(i);
        assert(rec@ == g);
        let ghost e = (sender@, v);
        match idx {
            Some(j) => {
                rec.votes.set(j, (sender.clone(), v));
                proof {
                    assert(votes_view(rec.votes@) =~= g.votes.update(j as int, e));
                    lemma_placed_sorted(g.votes, votes_view(rec.votes@), e, j as int);
                    lemma_sums_update(t, g.votes, j as int, e);
                }
            },
            None => {
                let pos = vote_insert_position(&rec.votes, sender);
                rec.votes.insert(pos, (sender.clone(), v));
                proof {
                    assert(votes_view(rec.votes@) =~= g.votes.insert(pos as int, e));
                    assert(voters(votes_view(rec.votes@)) =~= voters(g.votes).insert(pos as int, sender@));
                    lemma_sorted_insert(voters(g.votes), sender@, pos as int);
                    lemma_sums_insert(t, g.votes, pos as int, e);
                }
            },
        }
        rec.total = new_total;
        rec.weighted_sum = new_sum;
        let ghost rv = rec@;
        self.graphs.insert(i, rec);
        proof {
            assert(self.records() =~= before.update(i as int, rv));
            assert(labels(self.records()) =~= labels(before));
            assert forall|k: int| 0 <= k < rv.votes.len() implies (#[trigger] rv.votes[k]).1.period_start == rv.graph.current_period_start by {
                if idx is Some {
                    if k != idx->0 {
                        assert(rv.votes[k] == g.votes[k]);
                    }
                } else {
                    let pos = choose|pos: int| 0 <= pos <= g.votes.len() && rv.votes == g.votes.insert(pos, e);
                    if k < pos {
                        assert(rv.votes[k] == g.votes[k]);
                    } else if k > pos {
                        assert(rv.votes[k] == g.votes[k - 1]);
                    }
                }
            }
            if t == GraphType::Decimal {
                assert forall|k: int| 0 <= k < rv.votes.len() implies
                    (#[trigger] rv.votes[k]).1.voting_power as nat * 1_000_000_000_000nat < u128_limit() by {
                    if idx is Some {
                        if k != idx->0 {
                            assert(rv.votes[k] == g.votes[k]);
                        }
                    } else {
                        let pos = choose|pos: int| 0 <= pos <= g.votes.len() && rv.votes == g.votes.insert(pos, e);
                        if k < pos {
                            assert(rv.votes[k] == g.votes[k]);
                        } else if k > pos {
                            assert(rv.votes[k] == g.votes[k - 1]);
                        }
                    }
                }
            }
            assert(rv.wf());
            assert forall|k: int| 0 <= k < self.graphs@.len() implies (#[trigger] self.records()[k]).wf() by {
                if k != i {
                    assert(self.records()[k] == before[k]);
                }
            }
        }
        Ok(())
    }

    /// Take back the sender's vote on graph `label` (only one of the current
    /// period).
    pub fn remove_vote(&mut self, sender: &String, label: &String) -> (r: Result<(), VotingError>)
        requires
            old(self).wf(),
        ensures
            final(self).wf(),
            final(self).config == old(self).config,
            remove_vote_outcome(old(self).records(), final(self).records(), r, sender@, label@),
    {
        let ghost before = self.records();
        let i = match find_graph(&self.graphs, label) {
            Some(i) => i,
            None => return Err(VotingError::GraphNotFound { label: label.clone() }),
        };
        proof { lemma_graph_index(before, label@); }
        let ghost g = before[i as int];
        assert(g == self.graphs@[i as int]@);
        assert(g.wf());
        let t = self.graphs[i].graph.graph_type;
        let j = match find_vote(&self.graphs[i].votes, sender) {
            Some(j) => j,
            None => return Err(VotingError::NoVotes),
        };
        proof { lemma_vote_index(g.votes, sender@); }
        let old_vote = self.graphs[i].votes[j].1;
        assert(old_vote == g.votes[j as int].1);
        if old_vote.period_start != self.graphs[i].graph.current_period_start {
            return Err(VotingError::NoVotes);
        }
        proof {
            lemma_contribution_bounded(t, g.votes, j as int);
            lemma_contribution_period(t, old_vote, 0);
        }
        let old_c = vote_contribution(t, old_vote.voted_value, old_vote.voting_power)?;
        let mut rec = self.graphs.remove(i);
        assert(rec@ == g);
        rec.total = rec.total.saturating_sub(old_vote.voting_power);
        rec.weighted_sum = rec.weighted_sum.saturating_sub(old_c);
        let _gone = rec.votes.remove(j);
        let ghost rv = rec@;
        self.graphs.insert(i, rec);
        proof {
            assert(rv.votes =~= g.votes.remove(j as int));
            assert(voters(rv.votes) =~= voters(g.votes).remove(j as int));
            lemma_sorted_remove(voters(g.votes), j as int);
            lemma_sums_remove(t, g.votes, j as int);
            assert forall|k: int| 0 <= k < rv.votes.len() implies (#[trigger] rv.votes[k]).1.period_start == rv.graph.current_period_start by {
                if k < j { assert(rv.votes[k] == g.votes[k]); } else { assert(rv.votes[k] == g.votes[k + 1]); }
            }
            if t == GraphType::Decimal {
                assert forall|k: int| 0 <= k < rv.votes.len() implies
                    (#[trigger] rv.votes[k]).1.voting_power as nat * 1_000_000_000_000nat < u128_limit() by {
                    if k < j { assert(rv.votes[k] == g.votes[k]); } else { assert(rv.votes[k] == g.votes[k + 1]); }
                }
            }
            assert(rv.wf());
            assert(self.records() =~= before.update(i as int, rv));
            assert(labels(self.records()) =~= labels(before));
            assert forall|k: int| 0 <= k < self.graphs@.len() implies (#[trigger] self.records()[k]).wf() by {
                if k != i {
                    assert(self.records()[k] == before[k]);
                }
            }
        }
        Ok(())
    }

    /// End the current period of graph `label` at time `now` (anyone may, once
    /// the period is over): record the weighted average, clear the votes and
    /// start the next period. Answers what to tell the callback contract.
    #[verifier::rlimit(30)]
    pub fn end_voting(&mut self, label: &String, now: u64) -> (r: Result<VotingResult, VotingError>)
        requires
            old(self).wf(),
        ensures
            final(self).wf(),
            final(self).config == old(self).config,
            end_voting_outcome(old(self).records(), final(self).records(), r, label@, now),
    {
        let ghost before = self.records();
        let i = match find_graph(&self.graphs, label) {
            Some(i) => i,
            None => return Err(VotingError::GraphNotFound { label: label.clone() }),
        };
        proof { lemma_graph_index(before, label@); }
        let ghost g = before[i as int];
        assert(g == self.graphs@[i as int]@);
        let start = self.graphs[i].graph.current_period_start;
        let days = self.graphs[i].graph.period_days;
        let span = match days.checked_mul(SECONDS_PER_DAY) {
            Some(s) => s,
            None => return Err(VotingError::Overflow),
        };
        let end = match start.checked_add(span) {
            Some(e) => e,
            None => return Err(VotingError::Overflow),
        };
        if now < end {
            return Err(VotingError::PeriodNotEnded { ends_at: end });
        }
        let total = self.graphs[i].total;
        if total == 0 {
            return Err(VotingError::NoVotes);
        }
        let t = self.graphs[i].graph.graph_type;
        let ws = self.graphs[i].weighted_sum;
        let avg = match t {
            GraphType::Uint128 => ws / total,
            GraphType::Decimal => {
                let d = match decimal_from_micro(total) {
                    Some(d) => d,
                    None => 1_000_000_000_000_000_000u128,
                };
                match decimal_checked_div(ws, d) {
                    Some(a) => a,
                    None => return Err(VotingError::Overflow),
                }
            },
        };
        let res = PeriodResult {
            period_start: start,
            period_end: end,
            result_uint128: if t == GraphType::Uint128 { Some(avg) } else { None },
            result_decimal: if t == GraphType::Decimal { Some(avg) } else { None },
            total_voting_power: total,
        };
        let mut rec = self.graphs.remove(i);
        assert(rec@ == g);
        let ghost h = rec.history@;
        rec.history.push(res);
        if rec.history.len() > MAX_HISTORY_SIZE {
            let cut = rec.history.len() - MAX_HISTORY_SIZE;
            let kept = rec.history.split_off(cut);
            rec.history = kept;
        }
        assert(rec.history@ =~= capped_history(h, res));
        rec.votes = Vec::new();
        rec.total = 0;
        rec.weighted_sum = 0;
        rec.graph.current_period_start = now;
        let out = VotingResult {
            label: rec.graph.label.clone(),
            result_uint128: res.result_uint128,
            result_decimal: res.result_decimal,
            total_voting_power: total,
            callback_contract: rec.graph.callback_contract.clone(),
        };
        let ghost rv = rec@;
        self.graphs.insert(i, rec);
        proof {
            assert(rv.votes =~= Seq::<(Seq<char>, UserVote)>::empty());
            assert(voters(rv.votes) =~= Seq::<Seq<char>>::empty());
            assert(rv.wf());
            assert(self.records() =~= before.update(i as int, rv));
            assert(labels(self.records()) =~= labels(before));
            assert forall|k: int| 0 <= k < self.graphs@.len() implies (#[trigger] self.records()[k]).wf() by {
                if k != i {
                    assert(self.records()[k] == before[k]);
                }
            }
        }
        Ok(out)
    }
}

} // verus!
