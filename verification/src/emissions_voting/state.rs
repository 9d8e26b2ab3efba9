//! The state of the emissions-voting contract and its invariant: each graph
//! keeps running totals of its votes so that a weighted average is read in
//! constant time.
use vstd::prelude::*;
use crate::keys::keys_sorted;
use crate::math::u128_limit;
use crate::decimal::dmul;

verus! {

/// The seconds in a day.
pub const SECONDS_PER_DAY: u64 = 86_400;

/// The number of period results a graph keeps.
pub const MAX_HISTORY_SIZE: usize = 100;

/// Whether a graph's values are whole numbers or decimals.
#[derive(Clone, Copy, PartialEq, Eq, Structural, Debug)]
pub enum GraphType {
    Uint128,
    Decimal,
}

/// A quantity voted on over periods: votes lie in `range_min ..= range_max`
/// (decimal atomics for a decimal graph), and each period's weighted average
/// is sent to `callback_contract`.
#[derive(Debug)]
pub struct Graph {
    pub label: String,
    pub graph_type: GraphType,
    pub range_min: u128,
    pub range_max: u128,
    pub period_days: u64,
    pub current_period_start: u64,
    pub callback_contract: String,
}

/// A voter's vote: the value and the voting power it is weighted by.
#[derive(Clone, Copy, Debug)]
pub struct UserVote {
    pub voted_value: u128,
    pub voting_power: u128,
    pub period_start: u64,
}

/// The outcome of an ended period.
#[derive(Clone, Copy, Debug)]
pub struct PeriodResult {
    pub period_start: u64,
    pub period_end: u64,
    pub result_uint128: Option<u128>,
    pub result_decimal: Option<u128>,
    pub total_voting_power: u128,
}

/// A graph with its votes (by voter, in key order), the running totals of
/// the voting power and of the weighted values, and its past results.
pub struct GraphRecord {
    pub graph: Graph,
    pub votes: Vec<(String, UserVote)>,
    pub total: u128,
    pub weighted_sum: u128,
    pub history: Vec<PeriodResult>,
}

/// The contract's configuration.
#[derive(Debug)]
pub struct Config {
    pub owner: String,
    pub ltv_disco_contract: String,
    pub staking_contract: String,
}

/// The contract: its configuration and its graphs, in label order.
pub struct EmissionsVoting {
    pub config: Config,
    pub graphs: Vec<GraphRecord>,
}

/// Why an operation of the emissions-voting contract was refused.
#[derive(Debug)]
pub enum VotingError {
    Unauthorized,
    GraphAlreadyExists { label: String },
    GraphNotFound { label: String },
    VoteOutOfRange { value: String, min: String, max: String },
    PeriodNotEnded { ends_at: u64 },
    InvalidRange,
    InvalidPeriodDays,
    NoVotingPower,
    NoVotes,
    InvalidGraphType { msg: String },
    /// The vote's text is no number of the graph's type.
    InvalidVoteValue { value: String },
    /// A voting power is too large for a decimal with 6 places.
    VotingPowerConversion,
    /// An amount did not fit in 128 bits (or 64 for times).
    Overflow,
}

/// What the vote `v` adds to the weighted sum of a graph of type `t`:
/// value times power, the power read as a decimal with 6 places for a
/// decimal graph.
pub open spec fn contribution(t: GraphType, v: UserVote) -> nat {
    match t {
        GraphType::Uint128 => v.voted_value as nat * v.voting_power as nat,
        GraphType::Decimal => dmul(v.voted_value as nat, v.voting_power as nat * 1_000_000_000_000nat),
    }
}

/// The total voting power of the votes.
pub open spec fn power_sum(votes: Seq<(Seq<char>, UserVote)>) -> nat
    decreases votes.len(),
{
    if votes.len() == 0 {
        0
    } else {
        power_sum(votes.drop_last()) + votes.last().1.voting_power as nat
    }
}

/// The sum of the contributions of the votes.
pub open spec fn weight_sum(t: GraphType, votes: Seq<(Seq<char>, UserVote)>) -> nat
    decreases votes.len(),
{
    if votes.len() == 0 {
        0
    } else {
        weight_sum(t, votes.drop_last()) + contribution(t, votes.last().1)
    }
}

/// The voters of the votes.
pub open spec fn voters(votes: Seq<(Seq<char>, UserVote)>) -> Seq<Seq<char>> {
    votes.map_values(|e: (Seq<char>, UserVote)| e.0)
}

/// The votes with their voters as text.
pub open spec fn votes_view(votes: Seq<(String, UserVote)>) -> Seq<(Seq<char>, UserVote)> {
    votes.map_values(|e: (String, UserVote)| (e.0@, e.1))
}

/// A graph as a mathematical value.
pub struct GraphView {
    pub label: Seq<char>,
    pub graph_type: GraphType,
    pub range_min: u128,
    pub range_max: u128,
    pub period_days: u64,
    pub current_period_start: u64,
    pub callback_contract: Seq<char>,
}

impl View for Graph {
    type V = GraphView;

    open spec fn view(&self) -> GraphView {
        GraphView {
            label: self.label@,
            graph_type: self.graph_type,
            range_min: self.range_min,
            range_max: self.range_max,
            period_days: self.period_days,
            current_period_start: self.current_period_start,
            callback_contract: self.callback_contract@,
        }
    }
}

/// A graph record as a mathematical value.
pub struct RecordView {
    pub graph: GraphView,
    pub votes: Seq<(Seq<char>, UserVote)>,
    pub total: u128,
    pub weighted_sum: u128,
    pub history: Seq<PeriodResult>,
}

impl View for GraphRecord {
    type V = RecordView;

    open spec fn view(&self) -> RecordView {
        RecordView {
            graph: self.graph@,
            votes: votes_view(self.votes@),
            total: self.total,
            weighted_sum: self.weighted_sum,
            history: self.history@,
        }
    }
}

impl RecordView {
    /// The record's invariant: votes in voter order, all of the current
    /// period, convertible to decimals where the graph is decimal, and the
    /// totals equal to the sums over the votes.
    pub open spec fn wf(self) -> bool {
        &&& keys_sorted(voters(self.votes))
        &&& forall|i: int| 0 <= i < self.votes.len() ==>
            (#[trigger] self.votes[i]).1.period_start == self.graph.current_period_start
        &&& self.graph.graph_type == GraphType::Decimal ==> forall|i: int| 0 <= i < self.votes.len() ==>
            (#[trigger] self.votes[i]).1.voting_power as nat * 1_000_000_000_000nat < u128_limit()
        &&& self.total as nat == power_sum(self.votes)
        &&& self.weighted_sum as nat == weight_sum(self.graph.graph_type, self.votes)
    }
}

/// The labels of the graphs.
pub open spec fn labels(graphs: Seq<RecordView>) -> Seq<Seq<char>> {
    graphs.map_values(|g: RecordView| g.graph.label)
}

/// The graphs as mathematical values.
pub open spec fn records_view(graphs: Seq<GraphRecord>) -> Seq<RecordView> {
    graphs.map_values(|g: GraphRecord| g@)
}

impl EmissionsVoting {
    /// The graphs as mathematical values.
    pub open spec fn records(&self) -> Seq<RecordView> {
        records_view(self.graphs@)
    }

    /// The contract's invariant: graphs in label order, each well formed.
    pub open spec fn wf(&self) -> bool {
        &&& keys_sorted(labels(self.records()))
        &&& forall|i: int| 0 <= i < self.graphs@.len() ==> (#[trigger] self.records()[i]).wf()
    }
}

pub proof fn lemma_power_sum_concat(a: Seq<(Seq<char>, UserVote)>, b: Seq<(Seq<char>, UserVote)>)
    ensures
        power_sum(a + b) == power_sum(a) + power_sum(b),
    decreases b.len(),
{
    if b.len() == 0 {
        assert(a + b =~= a);
    } else {
        assert((a + b).drop_last() =~= a + b.drop_last());
        lemma_power_sum_concat(a, b.drop_last());
    }
}

pub proof fn lemma_weight_sum_concat(t: GraphType, a: Seq<(Seq<char>, UserVote)>, b: Seq<(Seq<char>, UserVote)>)
    ensures
        weight_sum(t, a + b) == weight_sum(t, a) + weight_sum(t, b),
    decreases b.len(),
{
    if b.len() == 0 {
        assert(a + b =~= a);
    } else {
        assert((a + b).drop_last() =~= a + b.drop_last());
        lemma_weight_sum_concat(t, a, b.drop_last());
    }
}

/// The sums after replacing the entry at `i` by `e`.
pub proof fn lemma_sums_update(t: GraphType, s: Seq<(Seq<char>, UserVote)>, i: int, e: (Seq<char>, UserVote))
    requires
        0 <= i < s.len(),
    ensures
        power_sum(s.update(i, e)) + s[i].1.voting_power == power_sum(s) + e.1.voting_power,
        weight_sum(t, s.update(i, e)) + contribution(t, s[i].1) == weight_sum(t, s) + contribution(t, e.1),
{
    let pre = s.take(i);
    let post = s.skip(i + 1);
    assert(s =~= pre + seq![s[i]] + post);
    assert(s.update(i, e) =~= pre + seq![e] + post);
    lemma_power_sum_concat(pre + seq![s[i]], post);
    lemma_power_sum_concat(pre, seq![s[i]]);
    lemma_power_sum_concat(pre + seq![e], post);
    lemma_power_sum_concat(pre, seq![e]);
    lemma_weight_sum_concat(t, pre + seq![s[i]], post);
    lemma_weight_sum_concat(t, pre, seq![s[i]]);
    lemma_weight_sum_concat(t, pre + seq![e], post);
    lemma_weight_sum_concat(t, pre, seq![e]);
    assert(seq![s[i]].drop_last() =~= Seq::<(Seq<char>, UserVote)>::empty());
    assert(seq![e].drop_last() =~= Seq::<(Seq<char>, UserVote)>::empty());
}

/// The sums after inserting `e` at `i`.
pub proof fn lemma_sums_insert(t: GraphType, s: Seq<(Seq<char>, UserVote)>, i: int, e: (Seq<char>, UserVote))
    requires
        0 <= i <= s.len(),
    ensures
        power_sum(s.insert(i, e)) == power_sum(s) + e.1.voting_power,
        weight_sum(t, s.insert(i, e)) == weight_sum(t, s) + contribution(t, e.1),
{
    let pre = s.take(i);
    let post = s.skip(i);
    assert(s =~= pre + post);
    assert(s.insert(i, e) =~= pre + seq![e] + post);
    lemma_power_sum_concat(pre, post);
    lemma_power_sum_concat(pre + seq![e], post);
    lemma_power_sum_concat(pre, seq![e]);
    lemma_weight_sum_concat(t, pre, post);
    lemma_weight_sum_concat(t, pre + seq![e], post);
    lemma_weight_sum_concat(t, pre, seq![e]);
    assert(seq![e].drop_last() =~= Seq::<(Seq<char>, UserVote)>::empty());
    assert(power_sum(Seq::<(Seq<char>, UserVote)>::empty()) == 0);
    assert(weight_sum(t, Seq::<(Seq<char>, UserVote)>::empty()) == 0);
    assert(seq![e].last() == e);
    assert(power_sum(seq![e]) == e.1.voting_power as nat);
    assert(weight_sum(t, seq![e]) == contribution(t, e.1));
}

/// The sums after removing the entry at `i`.
pub proof fn lemma_sums_remove(t: GraphType, s: Seq<(Seq<char>, UserVote)>, i: int)
    requires
        0 <= i < s.len(),
    ensures
        power_sum(s.remove(i)) + s[i].1.voting_power == power_sum(s),
        weight_sum(t, s.remove(i)) + contribution(t, s[i].1) == weight_sum(t, s),
{
    lemma_sums_insert(t, s.remove(i), i, s[i]);
    assert(s.remove(i).insert(i, s[i]) =~= s);
}

} // verus!
