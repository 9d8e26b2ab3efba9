//! The state of the governance contract: its configuration and the active
//! and pending proposals, each kept under the text of its id.
use vstd::prelude::*;
use crate::keys::{keys_sorted, key_lt, label_lt, lemma_key_order};
use crate::governance::validation::InvalidProposal;
use crate::math::{fraction, u128_limit};
use crate::decimal::{decimal_sqrt_atomics, decimal_from_ratio, decimal_sqrt, uint128_text, uint128_to_string};
use vstd::string::StringExecFns;

verus! {

/// Blocks in a day, at 6 seconds a block.
pub const BLOCKS_PER_DAY: u64 = 14_400;

/// The status of a proposal.
#[derive(Clone, Copy, PartialEq, Eq, Structural, Debug)]
pub enum ProposalStatus {
    Active,
    Passed,
    Rejected,
    Executed,
    Expired,
    AmendmentDesired,
}

/// How a voter votes on a proposal.
#[derive(Clone, Copy, PartialEq, Eq, Structural, Debug)]
pub enum ProposalVoteOption {
    For,
    Against,
    Amend,
    Remove,
    Align,
}

/// A message a proposal executes, in the order given by `order`.
#[derive(Debug)]
pub struct ProposalMessage {
    pub order: u64,
    pub msg: Vec<u8>,
}

/// A proposal, with the voting power and the voters of each option.
#[derive(Debug)]
pub struct Proposal {
    pub proposal_id: u64,
    pub submitter: String,
    pub status: ProposalStatus,
    pub aligned_power: u128,
    pub for_power: u128,
    pub against_power: u128,
    pub amendment_power: u128,
    pub removal_power: u128,
    pub aligned_voters: Vec<String>,
    pub for_voters: Vec<String>,
    pub against_voters: Vec<String>,
    pub amendment_voters: Vec<String>,
    pub removal_voters: Vec<String>,
    pub start_block: u64,
    pub start_time: u64,
    pub end_block: u64,
    pub delayed_end_block: u64,
    pub expiration_block: u64,
    pub title: String,
    pub description: String,
    pub link: Option<String>,
    pub messages: Option<Vec<ProposalMessage>>,
}

/// The configuration. Periods are in blocks of 6 seconds; quorum,
/// threshold and the vesting multiplier are decimals (by their atomics).
#[derive(Debug)]
pub struct Config {
    pub mbrn_denom: String,
    pub minimum_total_stake: u128,
    pub staking_contract_addr: String,
    pub vesting_contract_addr: String,
    pub vesting_voting_power_multiplier: u128,
    pub proposal_voting_period: u64,
    pub expedited_proposal_voting_period: u64,
    pub proposal_effective_delay: u64,
    pub proposal_expiration_period: u64,
    pub proposal_required_stake: u128,
    pub proposal_required_quorum: u128,
    pub proposal_required_threshold: u128,
    pub whitelisted_links: Vec<String>,
    pub quadratic_voting: bool,
}

/// The contract: the configuration, the number of proposals made, and the
/// active and the pending proposals, each in the key order of their id texts.
pub struct Governance {
    pub config: Config,
    pub proposal_count: u64,
    pub proposals: Vec<(String, Proposal)>,
    pub pending_proposals: Vec<(String, Proposal)>,
}

/// Why an operation of the governance contract was refused.
#[derive(Debug)]
pub enum GovError {
    Unauthorized,
    ProposalNotActive,
    VotingPeriodEnded,
    NoVotingPower,
    VotingPeriodNotEnded,
    ExecuteProposalExpired,
    ProposalNotPassed,
    ProposalDelayNotEnded,
    WhitelistEmpty,
    MessagesCheckPassed,
    InsufficientTotalStake { minimum: u128 },
    /// No proposal is stored under the id.
    ProposalNotFound,
    /// The sender is not the vesting recipient named.
    NotRecipient,
    /// The proposal's title, description or link was refused.
    InvalidProposal { reason: InvalidProposal },
    /// A decimal given as text did not parse.
    InvalidDecimal,
    /// The user did not vote for the option.
    UserDidNotVote,
    /// The proposal can only be removed by its submitter, or once it expired or was rejected.
    CantRemove,
    /// An amount did not fit its integer type, or a subtraction went below zero.
    Overflow,
    /// A query of another contract that the operation needs failed.
    QueryFailed,
    /// A query of another contract failed with this error.
    Query { msg: String },
}

impl GovError {
    /// The text of the error.
    pub fn message(&self) -> (r: String)
        ensures
            match self {
                GovError::Unauthorized => r@ == "Unauthorized"@,
                GovError::ProposalNotActive => r@ == "Proposal not active!"@,
                GovError::VotingPeriodEnded => r@ == "Voting period ended!"@,
                GovError::NoVotingPower => r@ == "You don't have any voting power!"@,
                GovError::VotingPeriodNotEnded => r@ == "Voting period not ended yet!"@,
                GovError::ExecuteProposalExpired => r@ == "Proposal expired!"@,
                GovError::ProposalNotPassed => r@ == "Proposal not passed!"@,
                GovError::ProposalDelayNotEnded => r@ == "Proposal delay not ended!"@,
                GovError::WhitelistEmpty => r@ == "Whitelist cannot be empty!"@,
                GovError::MessagesCheckPassed => r@ == "Messages check passed. Nothing was committed to the blockchain"@,
                GovError::InsufficientTotalStake { minimum } =>
                    r@ == "Total staked amount isn't greater than "@ + uint128_text(*minimum),
                GovError::ProposalNotFound => r@ == "Proposal not found"@,
                GovError::NotRecipient => r@ == "Generic error: You are not the Recipient that was passed"@,
                GovError::InvalidProposal { reason } => r@ == match reason {
                    InvalidProposal::TitleTooShort => "Generic error: Title too short!"@,
                    InvalidProposal::TitleTooLong => "Generic error: Title too long!"@,
                    InvalidProposal::DescriptionTooShort => "Generic error: Description too short!"@,
                    InvalidProposal::DescriptionTooLong => "Generic error: Description too long!"@,
                    InvalidProposal::LinkTooShort => "Generic error: Link too short!"@,
                    InvalidProposal::LinkTooLong => "Generic error: Link too long!"@,
                    InvalidProposal::LinkNotWhitelisted => "Generic error: Link is not whitelisted!"@,
                    InvalidProposal::LinkUnsafe =>
                        "Generic error: Link is not properly formatted or contains unsafe characters!"@,
                },
                GovError::InvalidDecimal => r@ == "Generic error: Invalid decimal"@,
                GovError::UserDidNotVote => r@ == "Generic error: User did not vote for this option"@,
                GovError::CantRemove => r@ == "Proposal can't be removed!"@,
                GovError::Overflow => r@ == "Overflow"@,
                GovError::QueryFailed => r@ == "Query failed"@,
                GovError::Query { msg } => r@ == msg@,
            },
    {
        match self {
            GovError::Unauthorized => String::from_str("Unauthorized"),
            GovError::ProposalNotActive => String::from_str("Proposal not active!"),
            GovError::VotingPeriodEnded => String::from_str("Voting period ended!"),
            GovError::NoVotingPower => String::from_str("You don't have any voting power!"),
            GovError::VotingPeriodNotEnded => String::from_str("Voting period not ended yet!"),
            GovError::ExecuteProposalExpired => String::from_str("Proposal expired!"),
            GovError::ProposalNotPassed => String::from_str("Proposal not passed!"),
            GovError::ProposalDelayNotEnded => String::from_str("Proposal delay not ended!"),
            GovError::WhitelistEmpty => String::from_str("Whitelist cannot be empty!"),
            GovError::MessagesCheckPassed => String::from_str("Messages check passed. Nothing was committed to the blockchain"),
            GovError::InsufficientTotalStake { minimum } => {
                let mut s = String::from_str("Total staked amount isn't greater than ");
                let n = uint128_to_string(*minimum);
                s.append(n.as_str());
                s
            },
            GovError::ProposalNotFound => String::from_str("Proposal not found"),
            GovError::NotRecipient => String::from_str("Generic error: You are not the Recipient that was passed"),
            GovError::InvalidProposal { reason } => match reason {
                InvalidProposal::TitleTooShort => String::from_str("Generic error: Title too short!"),
                InvalidProposal::TitleTooLong => String::from_str("Generic error: Title too long!"),
                InvalidProposal::DescriptionTooShort => String::from_str("Generic error: Description too short!"),
                InvalidProposal::DescriptionTooLong => String::from_str("Generic error: Description too long!"),
                InvalidProposal::LinkTooShort => String::from_str("Generic error: Link too short!"),
                InvalidProposal::LinkTooLong => String::from_str("Generic error: Link too long!"),
                InvalidProposal::LinkNotWhitelisted => String::from_str("Generic error: Link is not whitelisted!"),
                InvalidProposal::LinkUnsafe =>
                    String::from_str("Generic error: Link is not properly formatted or contains unsafe characters!"),
            },
            GovError::InvalidDecimal => String::from_str("Generic error: Invalid decimal"),
            GovError::UserDidNotVote => String::from_str("Generic error: User did not vote for this option"),
            GovError::CantRemove => String::from_str("Proposal can't be removed!"),
            GovError::Overflow => String::from_str("Overflow"),
            GovError::QueryFailed => String::from_str("Query failed"),
            GovError::Query { msg } => msg.clone(),
        }
    }
}

/// A proposal as a mathematical value.
pub struct ProposalView {
    pub proposal_id: u64,
    pub submitter: Seq<char>,
    pub status: ProposalStatus,
    pub aligned_power: u128,
    pub for_power: u128,
    pub against_power: u128,
    pub amendment_power: u128,
    pub removal_power: u128,
    pub aligned_voters: Seq<Seq<char>>,
    pub for_voters: Seq<Seq<char>>,
    pub against_voters: Seq<Seq<char>>,
    pub amendment_voters: Seq<Seq<char>>,
    pub removal_voters: Seq<Seq<char>>,
    pub start_block: u64,
    pub start_time: u64,
    pub end_block: u64,
    pub delayed_end_block: u64,
    pub expiration_block: u64,
    pub title: Seq<char>,
    pub description: Seq<char>,
    pub link: Option<Seq<char>>,
    pub messages: Option<Seq<(u64, Seq<u8>)>>,
}

/// The texts of the strings.
pub open spec fn texts(v: Seq<String>) -> Seq<Seq<char>> {
    v.map_values(|s: String| s@)
}

/// The messages as (order, bytes) pairs.
pub open spec fn messages_view(m: Seq<ProposalMessage>) -> Seq<(u64, Seq<u8>)> {
    m.map_values(|x: ProposalMessage| (x.order, x.msg@))
}

impl View for Proposal {
    type V = ProposalView;

    open spec fn view(&self) -> ProposalView {
        ProposalView {
            proposal_id: self.proposal_id,
            submitter: self.submitter@,
            status: self.status,
            aligned_power: self.aligned_power,
            for_power: self.for_power,
            against_power: self.against_power,
            amendment_power: self.amendment_power,
            removal_power: self.removal_power,
            aligned_voters: texts(self.aligned_voters@),
            for_voters: texts(self.for_voters@),
            against_voters: texts(self.against_voters@),
            amendment_voters: texts(self.amendment_voters@),
            removal_voters: texts(self.removal_voters@),
            start_block: self.start_block,
            start_time: self.start_time,
            end_block: self.end_block,
            delayed_end_block: self.delayed_end_block,
            expiration_block: self.expiration_block,
            title: self.title@,
            description: self.description@,
            link: match self.link { Some(l) => Some(l@), None => None },
            messages: match self.messages { Some(m) => Some(messages_view(m@)), None => None },
        }
    }
}

/// The entries as (key text, proposal) pairs.
pub open spec fn entries_view(v: Seq<(String, Proposal)>) -> Seq<(Seq<char>, ProposalView)> {
    v.map_values(|e: (String, Proposal)| (e.0@, e.1@))
}

/// The keys of the entries.
pub open spec fn entry_keys(v: Seq<(Seq<char>, ProposalView)>) -> Seq<Seq<char>> {
    v.map_values(|e: (Seq<char>, ProposalView)| e.0)
}

impl Governance {
    /// The active proposals under their keys.
    pub open spec fn active(&self) -> Seq<(Seq<char>, ProposalView)> {
        entries_view(self.proposals@)
    }

    /// The pending proposals under their keys.
    pub open spec fn pending(&self) -> Seq<(Seq<char>, ProposalView)> {
        entries_view(self.pending_proposals@)
    }

    /// Both lists of proposals are in key order.
    pub open spec fn wf(&self) -> bool {
        &&& keys_sorted(entry_keys(self.active()))
        &&& keys_sorted(entry_keys(self.pending()))
    }

    /// Whether both lists of proposals are in key order (see `wf`).
    pub fn is_wf(&self) -> (r: bool)
        ensures
            r == self.wf(),
    {
        entries_in_order(&self.proposals) && entries_in_order(&self.pending_proposals)
    }
}

/// Whether the entries are in key order.
fn entries_in_order(v: &Vec<(String, Proposal)>) -> (r: bool)
    ensures
        r == keys_sorted(entry_keys(entries_view(v@))),
{
    let ghost keys = entry_keys(entries_view(v@));
    if v.len() == 0 {
        return true;
    }
    let mut i: usize = 1;
    while i < v.len()
        invariant
            1 <= i <= v.len(),
            keys == entry_keys(entries_view(v@)),
            keys.len() == v@.len(),
            keys_sorted(keys.take(i as int)),
        decreases v.len() - i,
    {
        assert(keys[i - 1] == v@[i - 1].0@);
        assert(keys[i as int] == v@[i as int].0@);
        if !label_lt(&v[i - 1].0, &v[i].0) {
            return false;
        }
        proof {
            assert forall|a: int, b: int| 0 <= a < b < i + 1 implies
                key_lt(#[trigger] keys.take(i + 1)[a], #[trigger] keys.take(i + 1)[b]) by {
                if b < i {
                    assert(keys.take(i as int)[a] == keys[a] && keys.take(i as int)[b] == keys[b]);
                } else if a < i - 1 {
                    assert(keys.take(i as int)[a] == keys[a] && keys.take(i as int)[i - 1] == keys[i - 1]);
                    lemma_key_order(keys[a], keys[i - 1], keys[i as int]);
                }
            }
        }
        i = i + 1;
    }
    assert(keys.take(i as int) =~= keys);
    true
}

/// The text of the number `n`, as `u64`'s `Display` writes it: its decimal
/// digits.
pub open spec fn id_text(n: u64) -> Seq<char> {
    crate::decimal::decimal_digits(n as nat)
}

/// The key of a proposal: `ToString::to_string` of its id, its decimal
/// digits.
#[verifier::external_body]
pub(crate) fn id_key(n: u64) -> (r: String)
    ensures
        r@ == id_text(n),
{
    n.to_string()
}

/// The integer part of the square root of `x`, as the decimal `x` rounded
/// down after `cosmwasm_std::Decimal::sqrt`; `None` where `x` as a decimal
/// does not fit.
pub open spec fn sqrt_floor(x: u128) -> Option<nat> {
    if x as nat * fraction() < u128_limit() {
        Some(decimal_sqrt_atomics(x as nat * fraction()) / fraction())
    } else {
        None
    }
}

/// The same, rounded up.
pub open spec fn sqrt_ceil(x: u128) -> Option<nat> {
    if x as nat * fraction() < u128_limit() {
        let s = decimal_sqrt_atomics(x as nat * fraction());
        Some(if s == 0 { 0 } else { 1 + ((s - 1) as nat / fraction()) })
    } else {
        None
    }
}

/// `Decimal::from_ratio(x, 1).sqrt().to_uint_floor()`.
pub fn uint_sqrt_floor(x: u128) -> (r: Option<u128>)
    ensures
        match sqrt_floor(x) {
            Some(v) => r == Some(v as u128) && v < u128_limit(),
            None => r is None,
        },
{
    let d = decimal_from_ratio(x, 1)?;
    assert(d as nat == x as nat * fraction()) by {
        assert((x as nat * fraction()) / 1 == x as nat * fraction());
    }
    let s = decimal_sqrt(d);
    Some(s / 1_000_000_000_000_000_000u128)
}

/// `Decimal::from_ratio(x, 1).sqrt().to_uint_ceil()`.
pub fn uint_sqrt_ceil(x: u128) -> (r: Option<u128>)
    ensures
        match sqrt_ceil(x) {
            Some(v) => r == Some(v as u128) && v < u128_limit(),
            None => r is None,
        },
{
    let d = decimal_from_ratio(x, 1)?;
    assert(d as nat == x as nat * fraction()) by {
        assert((x as nat * fraction()) / 1 == x as nat * fraction());
    }
    let s = decimal_sqrt(d);
    if s == 0 {
        Some(0)
    } else {
        Some(1 + (s - 1) / 1_000_000_000_000_000_000u128)
    }
}

} // verus!
