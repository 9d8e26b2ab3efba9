//! Queries of the emissions-voting contract.
use vstd::prelude::*;
use crate::keys::key_lt;
use crate::math::u128_limit;
use crate::emissions_voting::state::{Graph, GraphType, GraphRecord, RecordView, UserVote, PeriodResult,
    EmissionsVoting, VotingError, SECONDS_PER_DAY, votes_view};
use crate::emissions_voting::graphs::{graph_index, vote_index, lemma_graph_index, lemma_vote_index, find_graph,
    find_vote};
use crate::emissions_voting::votes::{period_end, weighted_average};
use crate::decimal::decimal_checked_div;
use crate::decimal::decimal_from_micro;

verus! {

/// The default and the largest number of entries a listing returns.
pub const DEFAULT_LIMIT: u32 = 10;
pub const MAX_LIMIT: u32 = 30;

/// A graph as reported: with the end of its period and its total power.
#[derive(Debug)]
pub struct GraphResponse {
    pub graph: Graph,
    pub period_end: u64,
    pub total_voting_power: u128,
}

/// The running result of a graph.
#[derive(Debug)]
pub struct CurrentResult {
    pub result_uint128: Option<u128>,
    pub result_decimal: Option<u128>,
    pub total_voting_power: u128,
    pub period_ended: bool,
}

impl Graph {
    pub fn copy(&self) -> (r: Graph)
        ensures
            r@ == self@,
    {
        Graph {
            label: self.label.clone(),
            graph_type: self.graph_type,
            range_min: self.range_min,
            range_max: self.range_max,
            period_days: self.period_days,
            current_period_start: self.current_period_start,
            callback_contract: self.callback_contract.clone(),
        }
    }
}

/// `resp` reports the record `g`.
pub open spec fn reports_graph(resp: GraphResponse, g: RecordView) -> bool {
    &&& resp.graph@ == g.graph
    &&& period_end(g) == Some(resp.period_end)
    &&& resp.total_voting_power == g.total
}

/// The text of an optional string.
pub open spec fn opt_text(s: Option<String>) -> Option<Seq<char>> {
    match s {
        Some(t) => Some(t@),
        None => None,
    }
}

/// Graph `g` holds a vote of `user` of its current period.
pub open spec fn has_current_vote(g: RecordView, user: Seq<char>) -> bool {
    match vote_index(g.votes, user) {
        Some(j) => g.votes[j].1.period_start == g.graph.current_period_start,
        None => false,
    }
}

/// The number of entries a listing with `limit` returns at most.
pub open spec fn listing_size(limit: Option<u32>) -> nat {
    let l = match limit { Some(l) => l, None => DEFAULT_LIMIT };
    if l < MAX_LIMIT { l as nat } else { MAX_LIMIT as nat }
}

/// The first `n` of `s`, or all of them.
pub open spec fn first_n<A>(s: Seq<A>, n: nat) -> Seq<A> {
    if n < s.len() { s.take(n as int) } else { s }
}

/// The records after the label `start` (all of them where there is none),
/// at most as many as `limit` allows.
pub open spec fn listed_graphs(records: Seq<RecordView>, start: Option<Seq<char>>, limit: Option<u32>) -> Seq<RecordView> {
    first_n(records.filter(|g: RecordView| start matches Some(s) ==> key_lt(s, g.graph.label)), listing_size(limit))
}

/// The votes after the voter `start` (all of them where there is none), at
/// most as many as `limit` allows.
pub open spec fn listed_votes(votes: Seq<(Seq<char>, UserVote)>, start: Option<Seq<char>>, limit: Option<u32>) -> Seq<(Seq<char>, UserVote)> {
    first_n(votes.filter(|v: (Seq<char>, UserVote)| start matches Some(s) ==> key_lt(s, v.0)), listing_size(limit))
}

/// The sum of the voting power of the votes.
pub open spec fn listed_power(votes: Seq<(Seq<char>, UserVote)>) -> nat
    decreases votes.len(),
{
    if votes.len() == 0 {
        0
    } else {
        listed_power(votes.drop_last()) + votes.last().1.voting_power as nat
    }
}

proof fn lemma_listed_power_prefix(votes: Seq<(Seq<char>, UserVote)>, k: int)
    requires
        0 <= k <= votes.len(),
    ensures
        listed_power(votes.take(k)) <= listed_power(votes),
    decreases votes.len(),
{
    if k < votes.len() {
        assert(votes.drop_last().take(k) =~= votes.take(k));
        lemma_listed_power_prefix(votes.drop_last(), k);
    } else {
        assert(votes.take(k) =~= votes);
    }
}

fn size_of_listing(limit: Option<u32>) -> (r: usize)
    ensures
        r as nat == listing_size(limit),
{
    let l = match limit { Some(l) => l, None => DEFAULT_LIMIT };
    if l < MAX_LIMIT { l as usize } else { MAX_LIMIT as usize }
}

/// The report of record `g`, or `None` where the end of its period overflows.
fn graph_response(g: &GraphRecord) -> (r: Option<GraphResponse>)
    ensures
        match r {
            Some(resp) => reports_graph(resp, g@),
            None => period_end(g@) is None,
        },
{
    let span = g.graph.period_days.checked_mul(SECONDS_PER_DAY)?;
    let end = g.graph.current_period_start.checked_add(span)?;
    Some(GraphResponse { graph: g.graph.copy(), period_end: end, total_voting_power: g.total })
}

/// The weighted average of `g` (see `weighted_average`), where it fits.
fn average(g: &GraphRecord) -> (r: Option<u128>)
    requires
        g.total > 0,
    ensures
        match r {
            Some(a) => a as nat == weighted_average(g@),
            None => weighted_average(g@) >= u128_limit(),
        },
{
    match g.graph.graph_type {
        GraphType::Uint128 => Some(g.weighted_sum / g.total),
        GraphType::Decimal => {
            let d = match decimal_from_micro(g.total) {
                Some(d) => d,
                None => 1_000_000_000_000_000_000u128,
            };
            decimal_checked_div(g.weighted_sum, d)
        },
    }
}

impl EmissionsVoting {
    /// Graph `label`, as reported.
    pub fn query_graph(&self, label: &String) -> (r: Result<GraphResponse, VotingError>)
        ensures
            match graph_index(self.records(), label@) {
                None => r matches Err(VotingError::GraphNotFound { label: l }) && l@ == label@,
                Some(i) => match period_end(self.records()[i]) {
                    None => r matches Err(VotingError::Overflow),
                    Some(_) => r matches Ok(resp) && reports_graph(resp, self.records()[i]),
                },
            },
    {
        proof { lemma_graph_index(self.records(), label@); }
        match find_graph(&self.graphs, label) {
            Some(i) => {
                assert(self.records()[i as int] == self.graphs@[i as int]@);
                match graph_response(&self.graphs[i]) {
                    Some(resp) => Ok(resp),
                    None => Err(VotingError::Overflow),
                }
            },
            None => Err(VotingError::GraphNotFound { label: label.clone() }),
        }
    }

    /// The graphs after the label `start_after`, in label order, at most
    /// `limit` (10 where none is given, never more than 30), as reported.
    pub fn query_graphs(&self, start_after: Option<String>, limit: Option<u32>) -> (r: Result<Vec<GraphResponse>, VotingError>)
        ensures
            ({
                let listed = listed_graphs(self.records(),
                    opt_text(start_after), limit);
                if exists|k: int| 0 <= k < listed.len() && period_end(#[trigger] listed[k]) is None {
                    r matches Err(VotingError::Overflow)
                } else {
                    r matches Ok(v) && v@.len() == listed.len()
                        && forall|k: int| 0 <= k < listed.len() ==> #[trigger] reports_graph(v@[k], listed[k])
                }
            }),
    {
        let ghost start = opt_text(start_after);
        let ghost pred = |g: RecordView| start matches Some(s) ==> key_lt(s, g.graph.label);
        let ghost recs = self.records();
        let n = size_of_listing(limit);
        let mut out: Vec<GraphResponse> = Vec::new();
        let mut i: usize = 0;
        assert(recs.take(0).filter(pred) =~= Seq::<RecordView>::empty());
        while i < self.graphs.len() && out.len() < n
            invariant
                i <= self.graphs.len(),
                out@.len() <= n,
                n as nat == listing_size(limit),
                recs == self.records(),
                start == opt_text(start_after),
                pred == (|g: RecordView| start matches Some(s) ==> key_lt(s, g.graph.label)),
                out@.len() == recs.take(i as int).filter(pred).len(),
                forall|k: int| 0 <= k < out@.len() ==> #[trigger] reports_graph(out@[k], recs.take(i as int).filter(pred)[k]),
            decreases self.graphs.len() - i,
        {
            let ghost before = out@;
            proof {
                assert(recs.take(i + 1) =~= recs.take(i as int).push(recs[i as int]));
                recs.take(i as int).lemma_filter_push(recs[i as int], pred);
                assert(recs[i as int] == self.graphs@[i as int]@);
            }
            let keep = match &start_after {
                Some(s) => crate::keys::label_lt(s, &self.graphs[i].graph.label),
                None => true,
            };
            if keep {
                let resp = match graph_response(&self.graphs[i]) {
                    Some(resp) => resp,
                    None => {
                        proof {
                            let listed = listed_graphs(recs, start, limit);
                            let f = recs.filter(pred);
                            assert(pred(recs[i as int]));
                            lemma_filter_prefix(recs, pred, i as int);
                            let k = before.len() as int;
                            assert(f[k] == recs[i as int]);
                            assert(listed[k] == f[k]);
                            lemma_filter_prefix(recs, pred, i as int + 1);
                            assert(recs.take(i + 1).filter(pred).len() == k + 1);
                            assert(k < listed.len());
                            assert(period_end(listed[k]) is None);
                        }
                        return Err(VotingError::Overflow);
                    },
                };
                out.push(resp);
                proof {
                    assert forall|k: int| 0 <= k < out@.len() implies #[trigger] reports_graph(out@[k], recs.take(i + 1).filter(pred)[k]) by {
                        if k < before.len() {
                            assert(out@[k] == before[k]);
                        }
                    }
                }
            }
            i = i + 1;
        }
        proof {
            let f = recs.filter(pred);
            let listed = listed_graphs(recs, start, limit);
            lemma_filter_prefix(recs, pred, i as int);
            if i == self.graphs.len() {
                assert(recs.take(i as int) =~= recs);
            }
            assert(f.take(f.len() as int) =~= f);
            assert(listed =~= recs.take(i as int).filter(pred));
            assert forall|k: int| 0 <= k < listed.len() implies !(period_end(#[trigger] listed[k]) is None) by {
                assert(reports_graph(out@[k], listed[k]));
            }
        }
        Ok(out)
    }

    /// The running result of graph `label` at time `now`.
    pub fn query_current_result(&self, label: &String, now: u64) -> (r: Result<CurrentResult, VotingError>)
        ensures
            match graph_index(self.records(), label@) {
                None => r matches Err(VotingError::GraphNotFound { label: l }) && l@ == label@,
                Some(i) => {
                    let g = self.records()[i];
                    match period_end(g) {
                        None => r matches Err(VotingError::Overflow),
                        Some(end) => if g.total == 0 {
                            r matches Ok(c) && c.result_uint128 is None && c.result_decimal is None
                                && c.total_voting_power == 0 && c.period_ended == (now >= end)
                        } else if weighted_average(g) >= u128_limit() {
                            r matches Err(VotingError::Overflow)
                        } else {
                            &&& r matches Ok(c)
                            &&& c.result_uint128 == (if g.graph.graph_type == GraphType::Uint128 { Some(weighted_average(g) as u128) } else { None })
                            &&& c.result_decimal == (if g.graph.graph_type == GraphType::Decimal { Some(weighted_average(g) as u128) } else { None })
                            &&& c.total_voting_power == g.total
                            &&& c.period_ended == (now >= end)
                        },
                    }
                },
            },
    {
        proof { lemma_graph_index(self.records(), label@); }
        let i = match find_graph(&self.graphs, label) {
            Some(i) => i,
            None => return Err(VotingError::GraphNotFound { label: label.clone() }),
        };
        let g = &self.graphs[i];
        assert(self.records()[i as int] == g@);
        let resp = match graph_response(g) {
            Some(resp) => resp,
            None => return Err(VotingError::Overflow),
        };
        let ended = now >= resp.period_end;
        if g.total == 0 {
            return Ok(CurrentResult { result_uint128: None, result_decimal: None, total_voting_power: 0, period_ended: ended });
        }
        let avg = match average(g) {
            Some(a) => a,
            None => return Err(VotingError::Overflow),
        };
        let t = g.graph.graph_type;
        Ok(CurrentResult {
            result_uint128: if t == GraphType::Uint128 { Some(avg) } else { None },
            result_decimal: if t == GraphType::Decimal { Some(avg) } else { None },
            total_voting_power: g.total,
            period_ended: ended,
        })
    }

    /// The vote of `user` on graph `label`, if any.
    pub fn query_user_vote(&self, user: &String, label: &String) -> (r: Option<UserVote>)
        ensures
            match graph_index(self.records(), label@) {
                None => r is None,
                Some(i) => match vote_index(self.records()[i].votes, user@) {
                    None => r is None,
                    Some(j) => r == Some(self.records()[i].votes[j].1),
                },
            },
    {
        proof { lemma_graph_index(self.records(), label@); }
        let i = match find_graph(&self.graphs, label) {
            Some(i) => i,
            None => return None,
        };
        let g = &self.graphs[i];
        assert(self.records()[i as int] == g@);
        proof { lemma_vote_index(g@.votes, user@); }
        match find_vote(&g.votes, user) {
            Some(j) => {
                assert(g@.votes[j as int] == (g.votes@[j as int].0@, g.votes@[j as int].1));
                Some(g.votes[j].1)
            },
            None => None,
        }
    }

    /// The results of graph `label`, the most recent first, at most `limit`
    /// (10 where none is given, never more than 30).
    pub fn query_period_history(&self, label: &String, limit: Option<u32>) -> (r: Vec<PeriodResult>)
        ensures
            match graph_index(self.records(), label@) {
                None => r@.len() == 0,
                Some(i) => r@ == first_n(self.records()[i].history.reverse(), listing_size(limit)),
            },
    {
        proof { lemma_graph_index(self.records(), label@); }
        let i = match find_graph(&self.graphs, label) {
            Some(i) => i,
            None => return Vec::new(),
        };
        let h = &self.graphs[i].history;
        assert(self.records()[i as int].history == h@);
        let n = size_of_listing(limit);
        let mut out: Vec<PeriodResult> = Vec::new();
        let mut k: usize = 0;
        while k < h.len() && k < n
            invariant
                k <= h.len(),
                k <= n,
                out@ == h@.reverse().take(k as int),
            decreases h.len() - k,
        {
            out.push(h[h.len() - 1 - k]);
            assert(out@ =~= h@.reverse().take(k + 1));
            k = k + 1;
        }
        assert(out@ =~= first_n(h@.reverse(), n as nat));
        out
    }

    /// The votes on graph `label` after the voter `start_after`, in voter
    /// order, at most `limit` (10 where none is given, never more than 30),
    /// with their total voting power.
    pub fn query_all_votes(&self, label: &String, start_after: Option<String>, limit: Option<u32>)
        -> (r: Result<(Vec<(String, UserVote)>, u128), VotingError>)
        ensures
            match graph_index(self.records(), label@) {
                None => r matches Ok(v) && v.0@.len() == 0 && v.1 == 0,
                Some(i) => {
                    let listed = listed_votes(self.records()[i].votes,
                        opt_text(start_after), limit);
                    if listed_power(listed) >= u128_limit() {
                        r matches Err(VotingError::Overflow)
                    } else {
                        r matches Ok(v) && votes_view(v.0@) == listed && v.1 == listed_power(listed)
                    }
                },
            },
    {
        proof { lemma_graph_index(self.records(), label@); }
        let i = match find_graph(&self.graphs, label) {
            Some(i) => i,
            None => return Ok((Vec::new(), 0)),
        };
        let votes = &self.graphs[i].votes;
        let ghost vs = votes_view(votes@);
        assert(self.records()[i as int].votes == vs);
        let ghost start = opt_text(start_after);
        let ghost pred = |v: (Seq<char>, UserVote)| start matches Some(s) ==> key_lt(s, v.0);
        let n = size_of_listing(limit);
        let mut out: Vec<(String, UserVote)> = Vec::new();
        let mut total: u128 = 0;
        let mut k: usize = 0;
        assert(vs.take(0).filter(pred) =~= Seq::<(Seq<char>, UserVote)>::empty());
        while k < votes.len() && out.len() < n
            invariant
                k <= votes.len(),
                out@.len() <= n,
                n as nat == listing_size(limit),
                vs == votes_view(votes@),
                graph_index(self.records(), label@) == Some(i as int),
                vs == self.records()[i as int].votes,
                start == opt_text(start_after),
                pred == (|v: (Seq<char>, UserVote)| start matches Some(s) ==> key_lt(s, v.0)),
                votes_view(out@) == vs.take(k as int).filter(pred),
                total as nat == listed_power(votes_view(out@)),
            decreases votes.len() - k,
        {
            proof {
                assert(vs.take(k + 1) =~= vs.take(k as int).push(vs[k as int]));
                vs.take(k as int).lemma_filter_push(vs[k as int], pred);
            }
            let keep = match &start_after {
                Some(s) => crate::keys::label_lt(s, &votes[k].0),
                None => true,
            };
            if keep {
                let ghost before = votes_view(out@);
                let entry = (votes[k].0.clone(), votes[k].1);
                out.push(entry);
                assert(votes_view(out@) =~= before.push(vs[k as int]));
                assert(votes_view(out@).drop_last() =~= before);
                total = match total.checked_add(votes[k].1.voting_power) {
                    Some(t) => t,
                    None => {
                        proof {
                            let listed = listed_votes(vs, start, limit);
                            let f = vs.filter(pred);
                            let m = votes_view(out@).len() as int;
                            lemma_filter_prefix(vs, pred, k as int + 1);
                            assert(f.take(m) == votes_view(out@));
                            assert(listed.take(m) =~= f.take(m));
                            lemma_listed_power_prefix(listed, m);
                            assert(listed_power(votes_view(out@)) == listed_power(before) + vs[k as int].1.voting_power as nat);
                        }
                        return Err(VotingError::Overflow);
                    },
                };
            }
            k = k + 1;
        }
        proof {
            lemma_filter_prefix(vs, pred, k as int);
            if k == votes.len() {
                assert(vs.take(k as int) =~= vs);
            }
            let f = vs.filter(pred);
            assert(f.take(f.len() as int) =~= f);
            assert(listed_votes(vs, start, limit) =~= vs.take(k as int).filter(pred));
        }
        Ok((out, total))
    }

    /// Whether `user` has a vote of the current period on any graph.
    pub fn query_has_any_votes(&self, user: &String) -> (r: bool)
        ensures
            r == exists|i: int| 0 <= i < self.records().len() && #[trigger] has_current_vote(self.records()[i], user@),
    {
        let mut i: usize = 0;
        while i < self.graphs.len()
            invariant
                i <= self.graphs.len(),
                forall|k: int| 0 <= k < i ==> !#[trigger] has_current_vote(self.records()[k], user@),
            decreases self.graphs.len() - i,
        {
            let g = &self.graphs[i];
            assert(self.records()[i as int] == g@);
            proof { lemma_vote_index(g@.votes, user@); }
            if let Some(j) = find_vote(&g.votes, user) {
                assert(g@.votes[j as int].1 == g.votes@[j as int].1);
                if g.votes[j].1.period_start == g.graph.current_period_start {
                    assert(has_current_vote(self.records()[i as int], user@));
                    return true;
                }
            }
            i = i + 1;
        }
        false
    }
}

/// A prefix of `s` filtered is a prefix of `s` filtered, of the length of
/// what it keeps.
pub proof fn lemma_filter_prefix<A>(s: Seq<A>, pred: spec_fn(A) -> bool, k: int)
    requires
        0 <= k <= s.len(),
    ensures
        s.filter(pred).take(s.take(k).filter(pred).len() as int) == s.take(k).filter(pred),
        s.take(k).filter(pred).len() <= s.filter(pred).len(),
        k < s.len() && pred(s[k]) ==> s.filter(pred)[s.take(k).filter(pred).len() as int] == s[k],
    decreases s.len() - k,
{
    if k == s.len() {
        assert(s.take(k) =~= s);
        assert(s.filter(pred).take(s.filter(pred).len() as int) =~= s.filter(pred));
    } else {
        lemma_filter_prefix(s, pred, k + 1);
        assert(s.take(k + 1) =~= s.take(k).push(s[k]));
        s.take(k).lemma_filter_push(s[k], pred);
        let a = s.take(k).filter(pred);
        let b = s.take(k + 1).filter(pred);
        let f = s.filter(pred);
        if pred(s[k]) {
            assert(b == a.push(s[k]));
            assert(f.take(b.len() as int) == b);
            assert(f.take(a.len() as int) =~= f.take(b.len() as int).take(a.len() as int));
            assert(b.take(a.len() as int) =~= a);
            assert(f[a.len() as int] == f.take(b.len() as int)[a.len() as int]);
        } else {
            assert(b == a);
        }
    }
}

} // verus!
