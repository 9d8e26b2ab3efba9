//! Finding graphs and votes by their keys, and the owner's operations on
//! graphs and on the configuration.
use vstd::prelude::*;
use crate::keys::{key_lt, key_index, lemma_key_index, lemma_key_index_prefix, keys_sorted, insert_position,
    lemma_sorted_insert, lemma_sorted_remove, lemma_key_order, label_lt};
use crate::decimal::{uint128_from_str, decimal_from_str, parse_uint128, parse_decimal};
use crate::emissions_voting::state::{Graph, GraphType, GraphRecord, GraphView, RecordView, UserVote, Config,
    EmissionsVoting, VotingError, labels, records_view, voters, votes_view};

verus! {

/// The index of the graph `label` among the records.
pub open spec fn graph_index(records: Seq<RecordView>, label: Seq<char>) -> Option<int> {
    key_index(labels(records), label)
}

/// The index of the vote of `user` among the votes.
pub open spec fn vote_index(votes: Seq<(Seq<char>, UserVote)>, user: Seq<char>) -> Option<int> {
    key_index(voters(votes), user)
}

pub proof fn lemma_graph_index(records: Seq<RecordView>, label: Seq<char>)
    ensures
        graph_index(records, label) matches Some(i) ==> 0 <= i < records.len() && records[i].graph.label == label,
        graph_index(records, label) is None ==> forall|j: int| 0 <= j < records.len() ==> records[j].graph.label != label,
{
    lemma_key_index(labels(records), label);
    if graph_index(records, label) is None {
        assert forall|j: int| 0 <= j < records.len() implies records[j].graph.label != label by {
            assert(labels(records)[j] == records[j].graph.label);
        }
    }
}

pub proof fn lemma_vote_index(votes: Seq<(Seq<char>, UserVote)>, user: Seq<char>)
    ensures
        vote_index(votes, user) matches Some(i) ==> 0 <= i < votes.len() && votes[i].0 == user,
        vote_index(votes, user) is None ==> forall|j: int| 0 <= j < votes.len() ==> votes[j].0 != user,
{
    lemma_key_index(voters(votes), user);
    if vote_index(votes, user) is None {
        assert forall|j: int| 0 <= j < votes.len() implies votes[j].0 != user by {
            assert(voters(votes)[j] == votes[j].0);
        }
    }
}

/// The index of the graph `label`.
pub fn find_graph(graphs: &Vec<GraphRecord>, label: &String) -> (r: Option<usize>)
    ensures
        match r {
            Some(i) => graph_index(records_view(graphs@), label@) == Some(i as int),
            None => graph_index(records_view(graphs@), label@) is None,
        },
{
    let ghost ks = labels(records_view(graphs@));
    let mut i: usize = 0;
    while i < graphs.len()
        invariant
            i <= graphs.len(),
            ks == labels(records_view(graphs@)),
            key_index(ks.take(i as int), label@) is None,
        decreases graphs.len() - i,
    {
        assert(ks.take(i + 1).drop_last() =~= ks.take(i as int));
        assert(ks.take(i + 1).last() == graphs@[i as int].graph.label@);
        if graphs[i].graph.label == *label {
            proof { lemma_key_index_prefix(ks, label@, i as int); }
            return Some(i);
        }
        i = i + 1;
    }
    assert(ks.take(graphs.len() as int) =~= ks);
    None
}

/// The index of the vote of `user`.
pub fn find_vote(votes: &Vec<(String, UserVote)>, user: &String) -> (r: Option<usize>)
    ensures
        match r {
            Some(i) => vote_index(votes_view(votes@), user@) == Some(i as int),
            None => vote_index(votes_view(votes@), user@) is None,
        },
{
    let ghost ks = voters(votes_view(votes@));
    let mut i: usize = 0;
    while i < votes.len()
        invariant
            i <= votes.len(),
            ks == voters(votes_view(votes@)),
            key_index(ks.take(i as int), user@) is None,
        decreases votes.len() - i,
    {
        assert(ks.take(i + 1).drop_last() =~= ks.take(i as int));
        assert(ks.take(i + 1).last() == votes@[i as int].0@);
        if votes[i].0 == *user {
            proof { lemma_key_index_prefix(ks, user@, i as int); }
            return Some(i);
        }
        i = i + 1;
    }
    assert(ks.take(votes.len() as int) =~= ks);
    None
}

/// Where the graph `label`, which is not there, goes among the graphs.
fn graph_insert_position(graphs: &Vec<GraphRecord>, label: &String) -> (pos: usize)
    requires
        keys_sorted(labels(records_view(graphs@))),
        graph_index(records_view(graphs@), label@) is None,
    ensures
        insert_position(labels(records_view(graphs@)), label@, pos as int),
{
    let ghost ks = labels(records_view(graphs@));
    proof { lemma_key_index(ks, label@); }
    let mut i: usize = 0;
    while i < graphs.len()
        invariant
            i <= graphs.len(),
            ks == labels(records_view(graphs@)),
            keys_sorted(ks),
            forall|j: int| 0 <= j < ks.len() ==> ks[j] != label@,
            forall|j: int| 0 <= j < i ==> key_lt(#[trigger] ks[j], label@),
        decreases graphs.len() - i,
    {
        assert(ks[i as int] == graphs@[i as int].graph.label@);
        proof { lemma_key_order(ks[i as int], label@, label@); }
        if label_lt(label, &graphs[i].graph.label) {
            assert forall|j: int| i <= j < ks.len() implies key_lt(label@, #[trigger] ks[j]) by {
                if j > i {
                    lemma_key_order(label@, ks[i as int], ks[j]);
                }
            }
            return i;
        }
        i = i + 1;
    }
    i
}

/// Where the vote of `user`, who has none, goes among the votes.
pub fn vote_insert_position(votes: &Vec<(String, UserVote)>, user: &String) -> (pos: usize)
    requires
        keys_sorted(voters(votes_view(votes@))),
        vote_index(votes_view(votes@), user@) is None,
    ensures
        insert_position(voters(votes_view(votes@)), user@, pos as int),
{
    let ghost ks = voters(votes_view(votes@));
    proof { lemma_key_index(ks, user@); }
    let mut i: usize = 0;
    while i < votes.len()
        invariant
            i <= votes.len(),
            ks == voters(votes_view(votes@)),
            keys_sorted(ks),
            forall|j: int| 0 <= j < ks.len() ==> ks[j] != user@,
            forall|j: int| 0 <= j < i ==> key_lt(#[trigger] ks[j], user@),
        decreases votes.len() - i,
    {
        assert(ks[i as int] == votes@[i as int].0@);
        proof { lemma_key_order(ks[i as int], user@, user@); }
        if label_lt(user, &votes[i].0) {
            assert forall|j: int| i <= j < ks.len() implies key_lt(user@, #[trigger] ks[j]) by {
                if j > i {
                    lemma_key_order(user@, ks[i as int], ks[j]);
                }
            }
            return i;
        }
        i = i + 1;
    }
    i
}

/// A new graph record with no votes, its period starting at `now`.
pub open spec fn fresh_record(label: Seq<char>, t: GraphType, min: u128, max: u128, days: u64,
    callback: Seq<char>, now: u64) -> RecordView {
    RecordView {
        graph: GraphView {
            label,
            graph_type: t,
            range_min: min,
            range_max: max,
            period_days: days,
            current_period_start: now,
            callback_contract: callback,
        },
        votes: Seq::empty(),
        total: 0,
        weighted_sum: 0,
        history: Seq::empty(),
    }
}

/// The text of the error on a range bound that does not parse.
pub open spec fn range_error_text(t: GraphType, is_min: bool) -> Seq<char> {
    match (t, is_min) {
        (GraphType::Uint128, true) => "Invalid Uint128 range_min"@,
        (GraphType::Uint128, false) => "Invalid Uint128 range_max"@,
        (GraphType::Decimal, true) => "Invalid Decimal range_min"@,
        (GraphType::Decimal, false) => "Invalid Decimal range_max"@,
    }
}

/// What parsing a bound of a graph of type `t` gives.
pub open spec fn parsed_value(t: GraphType, s: Seq<char>) -> Option<u128> {
    match t {
        GraphType::Uint128 => uint128_from_str(s),
        GraphType::Decimal => decimal_from_str(s),
    }
}

/// Parse a value of a graph of type `t`.
pub fn parse_value(t: GraphType, s: &String) -> (r: Option<u128>)
    ensures
        r == parsed_value(t, s@),
{
    match t {
        GraphType::Uint128 => parse_uint128(s),
        GraphType::Decimal => parse_decimal(s),
    }
}

/// The outcome of creating a graph with the parsed bounds `min` and `max`.
pub open spec fn create_graph_outcome(old: &EmissionsVoting, new: &EmissionsVoting, r: Result<(), VotingError>,
    sender: Seq<char>, label: Seq<char>, t: GraphType, min: Option<u128>, max: Option<u128>, days: u64,
    callback: Seq<char>, now: u64) -> bool {
    &&& r is Err ==> new.records() == old.records()
    &&& if sender != old.config.owner@ {
        r matches Err(VotingError::Unauthorized)
    } else if days < 1 {
        r matches Err(VotingError::InvalidPeriodDays)
    } else if graph_index(old.records(), label) is Some {
        r matches Err(VotingError::GraphAlreadyExists { label: l }) && l@ == label
    } else if min is None {
        r matches Err(VotingError::InvalidGraphType { msg }) && msg@ == range_error_text(t, true)
    } else if max is None {
        r matches Err(VotingError::InvalidGraphType { msg }) && msg@ == range_error_text(t, false)
    } else if min->0 >= max->0 {
        r matches Err(VotingError::InvalidRange)
    } else {
        &&& r is Ok
        &&& exists|pos: int| 0 <= pos <= old.records().len() && new.records()
            == old.records().insert(pos, fresh_record(label, t, min->0, max->0, days, callback, now))
    }
}

/// The outcome of changing the period or the callback of graph `label`.
pub open spec fn update_graph_outcome(old: &EmissionsVoting, new: &EmissionsVoting, r: Result<(), VotingError>,
    sender: Seq<char>, label: Seq<char>, days: Option<u64>, callback: Option<Seq<char>>) -> bool {
    &&& r is Err ==> new.records() == old.records()
    &&& if sender != old.config.owner@ {
        r matches Err(VotingError::Unauthorized)
    } else if let Some(i) = graph_index(old.records(), label) {
        if days matches Some(d) && d < 1 {
            r matches Err(VotingError::InvalidPeriodDays)
        } else {
            let g = old.records()[i];
            &&& r is Ok
            &&& new.records() == old.records().update(i, RecordView {
                graph: GraphView {
                    period_days: match days { Some(d) => d, None => g.graph.period_days },
                    callback_contract: match callback { Some(c) => c, None => g.graph.callback_contract },
                    ..g.graph
                },
                ..g
            })
        }
    } else {
        r matches Err(VotingError::GraphNotFound { label: l }) && l@ == label
    }
}

impl EmissionsVoting {
    /// A new contract owned by `owner`, or by the sender where none is given.
    pub fn instantiate(owner: Option<String>, sender: String, ltv_disco_contract: String, staking_contract: String) -> (r: EmissionsVoting)
        ensures
            r.wf(),
            r.config.owner == (match owner { Some(o) => o, None => sender }),
            r.config.ltv_disco_contract == ltv_disco_contract,
            r.config.staking_contract == staking_contract,
            r.records().len() == 0,
    {
        let owner = match owner {
            Some(o) => o,
            None => sender,
        };
        let r = EmissionsVoting {
            config: Config { owner, ltv_disco_contract, staking_contract },
            graphs: Vec::new(),
        };
        assert(r.records() =~= Seq::<RecordView>::empty());
        assert(labels(r.records()) =~= Seq::<Seq<char>>::empty());
        r
    }

    /// Change the configuration; only the owner may.
    pub fn update_config(&mut self, sender: &String, owner: Option<String>, ltv_disco_contract: Option<String>,
        staking_contract: Option<String>) -> (r: Result<(), VotingError>)
        requires
            old(self).wf(),
        ensures
            final(self).wf(),
            final(self).records() == old(self).records(),
            sender@ != old(self).config.owner@ ==> (r matches Err(VotingError::Unauthorized))
                && final(self).config == old(self).config,
            sender@ == old(self).config.owner@ ==> {
                &&& r is Ok
                &&& final(self).config.owner == (match owner { Some(o) => o, None => old(self).config.owner })
                &&& final(self).config.ltv_disco_contract
                    == (match ltv_disco_contract { Some(o) => o, None => old(self).config.ltv_disco_contract })
                &&& final(self).config.staking_contract
                    == (match staking_contract { Some(o) => o, None => old(self).config.staking_contract })
            },
    {
        if *sender != self.config.owner {
            return Err(VotingError::Unauthorized);
        }
        if let Some(o) = owner {
            self.config.owner = o;
        }
        if let Some(a) = ltv_disco_contract {
            self.config.ltv_disco_contract = a;
        }
        if let Some(a) = staking_contract {
            self.config.staking_contract = a;
        }
        Ok(())
    }

    /// Create the graph `label` of type `graph_type` with the range given as
    /// text; only the owner may. Its first period starts at `now`.
    pub fn create_graph(&mut self, sender: &String, label: String, graph_type: GraphType, range_min: &String,
        range_max: &String, period_days: u64, callback_contract: String, now: u64) -> (r: Result<(), VotingError>)
        requires
            old(self).wf(),
        ensures
            final(self).wf(),
            final(self).config == old(self).config,
            create_graph_outcome(old(self), final(self), r, sender@, label@, graph_type,
                parsed_value(graph_type, range_min@), parsed_value(graph_type, range_max@), period_days,
                callback_contract@, now),
    {
        let min = parse_value(graph_type, range_min);
        let max = parse_value(graph_type, range_max);
        self.create_graph_parsed(sender, label, graph_type, min, max, period_days, callback_contract, now)
    }

    /// Create the graph `label` with the bounds as parsed (`None` where the
    /// text did not parse).
    pub fn create_graph_parsed(&mut self, sender: &String, label: String, graph_type: GraphType, range_min: Option<u128>,
        range_max: Option<u128>, period_days: u64, callback_contract: String, now: u64) -> (r: Result<(), VotingError>)
        requires
            old(self).wf(),
        ensures
            final(self).wf(),
            final(self).config == old(self).config,
            create_graph_outcome(old(self), final(self), r, sender@, label@, graph_type, range_min, range_max,
                period_days, callback_contract@, now),
    {
        if *sender != self.config.owner {
            return Err(VotingError::Unauthorized);
        }
        if period_days < 1 {
            return Err(VotingError::InvalidPeriodDays);
        }
        if find_graph(&self.graphs, &label).is_some() {
            return Err(VotingError::GraphAlreadyExists { label });
        }
        let min = match range_min {
            Some(v) => v,
            None => {
                let msg = match graph_type {
                    GraphType::Uint128 => "Invalid Uint128 range_min".to_owned(),
                    GraphType::Decimal => "Invalid Decimal range_min".to_owned(),
                };
                return Err(VotingError::InvalidGraphType { msg });
            },
        };
        let max = match range_max {
            Some(v) => v,
            None => {
                let msg = match graph_type {
                    GraphType::Uint128 => "Invalid Uint128 range_max".to_owned(),
                    GraphType::Decimal => "Invalid Decimal range_max".to_owned(),
                };
                return Err(VotingError::InvalidGraphType { msg });
            },
        };
        if min >= max {
            return Err(VotingError::InvalidRange);
        }
        let pos = graph_insert_position(&self.graphs, &label);
        let ghost before = self.records();
        let rec = GraphRecord {
            graph: Graph {
                label,
                graph_type,
                range_min: min,
                range_max: max,
                period_days,
                current_period_start: now,
                callback_contract,
            },
            votes: Vec::new(),
            total: 0,
            weighted_sum: 0,
            history: Vec::new(),
        };
        assert(votes_view(rec.votes@) =~= Seq::<(Seq<char>, UserVote)>::empty());
        let ghost rv = rec@;
        self.graphs.insert(pos, rec);
        proof {
            assert(self.records() =~= before.insert(pos as int, rv));
            assert(labels(self.records()) =~= labels(before).insert(pos as int, rv.graph.label));
            lemma_sorted_insert(labels(before), rv.graph.label, pos as int);
            assert(voters(rv.votes) =~= Seq::<Seq<char>>::empty());
            assert forall|i: int| 0 <= i < self.graphs@.len() implies (#[trigger] self.records()[i]).wf() by {
                if i < pos {
                    assert(self.records()[i] == before[i]);
                } else if i > pos {
                    assert(self.records()[i] == before[i - 1]);
                }
            }
        }
        Ok(())
    }

    /// Change the period length or the callback of graph `label`; only the
    /// owner may.
    pub fn update_graph(&mut self, sender: &String, label: &String, period_days: Option<u64>,
        callback_contract: Option<String>) -> (r: Result<(), VotingError>)
        requires
            old(self).wf(),
        ensures
            final(self).wf(),
            final(self).config == old(self).config,
            update_graph_outcome(old(self), final(self), r, sender@, label@, period_days,
                match callback_contract { Some(c) => Some(c@), None => None }),
    {
        if *sender != self.config.owner {
            return Err(VotingError::Unauthorized);
        }
        let i = match find_graph(&self.graphs, label) {
            Some(i) => i,
            None => return Err(VotingError::GraphNotFound { label: label.clone() }),
        };
        proof { lemma_graph_index(self.records(), label@); }
        if let Some(d) = period_days {
            if d < 1 {
                return Err(VotingError::InvalidPeriodDays);
            }
        }
        let ghost before = self.records();
        let mut rec = self.graphs.remove(i);
        assert(rec@ == before[i as int]);
        if let Some(d) = period_days {
            rec.graph.period_days = d;
        }
        if let Some(c) = callback_contract {
            rec.graph.callback_contract = c;
        }
        let ghost rv = rec@;
        self.graphs.insert(i, rec);
        proof {
            assert(self.records() =~= before.update(i as int, rv));
            assert(labels(self.records()) =~= labels(before));
            assert forall|j: int| 0 <= j < self.graphs@.len() implies (#[trigger] self.records()[j]).wf() by {
                if j != i {
                    assert(self.records()[j] == before[j]);
                }
            }
        }
        Ok(())
    }

    /// Remove graph `label` with its votes and history; only the owner may.
    pub fn remove_graph(&mut self, sender: &String, label: &String) -> (r: Result<(), VotingError>)
        requires
            old(self).wf(),
        ensures
            final(self).wf(),
            final(self).config == old(self).config,
            r is Err ==> final(self).records() == old(self).records(),
            sender@ != old(self).config.owner@ ==> r matches Err(VotingError::Unauthorized),
            sender@ == old(self).config.owner@ ==> match graph_index(old(self).records(), label@) {
                None => r matches Err(VotingError::GraphNotFound { label: l }) && l@ == label@,
                Some(i) => r is Ok && final(self).records() == old(self).records().remove(i),
            },
    {
        if *sender != self.config.owner {
            return Err(VotingError::Unauthorized);
        }
        let i = match find_graph(&self.graphs, label) {
            Some(i) => i,
            None => return Err(VotingError::GraphNotFound { label: label.clone() }),
        };
        proof { lemma_graph_index(self.records(), label@); }
        let ghost before = self.records();
        let _removed = self.graphs.remove(i);
        proof {
            assert(self.records() =~= before.remove(i as int));
            assert(labels(self.records()) =~= labels(before).remove(i as int));
            lemma_sorted_remove(labels(before), i as int);
            assert forall|j: int| 0 <= j < self.graphs@.len() implies (#[trigger] self.records()[j]).wf() by {
                if j < i {
                    assert(self.records()[j] == before[j]);
                } else {
                    assert(self.records()[j] == before[j + 1]);
                }
            }
        }
        Ok(())
    }
}

} // verus!
