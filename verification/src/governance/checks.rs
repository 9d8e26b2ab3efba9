//! Dry runs of proposal messages: the proposal's messages, followed by
//! steps that exercise a system contract, followed by a step that always
//! fails so that nothing of the run is committed.
use vstd::prelude::*;
use crate::math::u128_limit;
use crate::governance::state::{ProposalMessage, GovError, messages_view};
use crate::governance::admin::{sort_by_order, sorted_messages};

verus! {

/// Stake put in and taken out again by the staking check: 1 MBRN.
pub const CHECK_STAKE: u128 = 1_000_000;

/// A step of a dry run, after the proposal's own messages.
#[derive(Clone, Copy, PartialEq, Eq, Structural, Debug)]
pub enum CheckStep {
    /// Deposit the contract's whole OSMO balance into a new position.
    CdpDeposit { amount: u128 },
    /// Mint debt on that position.
    CdpIncreaseDebt { position_id: u128, amount: u128 },
    /// Repay that debt.
    CdpRepay { position_id: u128, amount: u128 },
    /// Withdraw the OSMO again.
    CdpWithdraw { position_id: u128, amount: u128 },
    /// Unstake all of the contract's MBRN.
    Unstake,
    /// Stake MBRN.
    Stake { amount: u128 },
    /// Mint credit to the contract.
    MintCredit { amount: u128 },
    /// Bid credit on the OSMO queue at premium 0.
    SubmitBid { amount: u128 },
    /// Retract that bid.
    RetractBid { bid_id: u128 },
    /// A step that always fails.
    FailCheck,
}

/// What the positions check needs to know: the id the next position gets,
/// the contract's OSMO balance (0 where its query failed) and the debt
/// minimum (`None` where the query of the configuration failed).
#[derive(Clone, Copy, PartialEq, Eq, Structural, Debug)]
pub struct CdpFacts {
    pub current_position_id: u128,
    pub uosmo_balance: u128,
    pub debt_minimum: Option<u128>,
}

/// What the liquidation queue check needs to know: the contract's credit
/// balance (0 where its query failed), the minimum bid and the id the next
/// bid on the OSMO queue gets.
#[derive(Clone, Copy, PartialEq, Eq, Structural, Debug)]
pub struct LqFacts {
    pub credit_balance: u128,
    pub minimum_bid: u128,
    pub current_bid_id: u128,
}

/// The steps of the dry run chosen by `switch` (0: positions, 1: staking,
/// 2: liquidation queue, else none), ending in the failing step; `cdp` and
/// `lq` are `None` where their queries failed.
pub open spec fn check_steps(switch: Option<u64>, cdp: Option<CdpFacts>, lq: Option<LqFacts>) -> Result<Seq<CheckStep>, GovError> {
    let tail = seq![CheckStep::FailCheck];
    if switch == Some(0u64) {
        match cdp {
            None => Err(GovError::QueryFailed),
            Some(c) => if c.uosmo_balance == 0 {
                Ok(tail)
            } else {
                match c.debt_minimum {
                    None => Err(GovError::QueryFailed),
                    Some(d) => if d * 1_000_000 >= u128_limit() {
                        Err(GovError::Overflow)
                    } else {
                        let m = (d * 1_000_000) as u128;
                        Ok(seq![
                            CheckStep::CdpDeposit { amount: c.uosmo_balance },
                            CheckStep::CdpIncreaseDebt { position_id: c.current_position_id, amount: m },
                            CheckStep::CdpRepay { position_id: c.current_position_id, amount: m },
                            CheckStep::CdpWithdraw { position_id: c.current_position_id, amount: c.uosmo_balance },
                        ] + tail)
                    },
                }
            },
        }
    } else if switch == Some(1u64) {
        Ok(seq![CheckStep::Unstake, CheckStep::Stake { amount: CHECK_STAKE }, CheckStep::Unstake] + tail)
    } else if switch == Some(2u64) {
        match lq {
            None => Err(GovError::QueryFailed),
            Some(l) => {
                let mint = if l.credit_balance < l.minimum_bid {
                    seq![CheckStep::MintCredit { amount: l.minimum_bid }]
                } else {
                    Seq::empty()
                };
                Ok(mint + seq![CheckStep::SubmitBid { amount: l.minimum_bid },
                    CheckStep::RetractBid { bid_id: l.current_bid_id }] + tail)
            },
        }
    } else {
        Ok(tail)
    }
}

/// The dry run of `messages`: the messages in a stable sort by their order,
/// then the steps of `check_steps`. A dry run commits nothing: it reads
/// only what it is given, and governance's state is not among it.
pub fn check_messages(messages: &Vec<ProposalMessage>, msg_switch: Option<u64>, cdp: Option<CdpFacts>,
    lq: Option<LqFacts>) -> (r: Result<(Vec<(u64, Vec<u8>)>, Vec<CheckStep>), GovError>)
    ensures
        match check_steps(msg_switch, cdp, lq) {
            Err(e) => r matches Err(x) && x == e,
            Ok(steps) => r matches Ok((m, s)) && s@ == steps
                && m@.map_values(|x: (u64, Vec<u8>)| (x.0, x.1@)) == sort_by_order(messages_view(messages@)),
        },
{
    let mut steps: Vec<CheckStep> = Vec::new();
    if msg_switch == Some(0u64) {
        let c = match cdp {
            Some(c) => c,
            None => return Err(GovError::QueryFailed),
        };
        if c.uosmo_balance != 0 {
            let d = match c.debt_minimum {
                Some(d) => d,
                None => return Err(GovError::QueryFailed),
            };
            let m = match d.checked_mul(1_000_000) {
                Some(m) => m,
                None => return Err(GovError::Overflow),
            };
            steps.push(CheckStep::CdpDeposit { amount: c.uosmo_balance });
            steps.push(CheckStep::CdpIncreaseDebt { position_id: c.current_position_id, amount: m });
            steps.push(CheckStep::CdpRepay { position_id: c.current_position_id, amount: m });
            steps.push(CheckStep::CdpWithdraw { position_id: c.current_position_id, amount: c.uosmo_balance });
        }
    } else if msg_switch == Some(1u64) {
        steps.push(CheckStep::Unstake);
        steps.push(CheckStep::Stake { amount: CHECK_STAKE });
        steps.push(CheckStep::Unstake);
    } else if msg_switch == Some(2u64) {
        let l = match lq {
            Some(l) => l,
            None => return Err(GovError::QueryFailed),
        };
        if l.credit_balance < l.minimum_bid {
            steps.push(CheckStep::MintCredit { amount: l.minimum_bid });
        }
        steps.push(CheckStep::SubmitBid { amount: l.minimum_bid });
        steps.push(CheckStep::RetractBid { bid_id: l.current_bid_id });
    }
    steps.push(CheckStep::FailCheck);
    let ghost expected = check_steps(msg_switch, cdp, lq);
    assert(expected is Ok && steps@ =~= expected->Ok_0);
    Ok((sorted_messages(messages), steps))
}

/// The end of a dry run: the queries a passed proposal relies on were all
/// answered (`queries`, else the first query's error); a run that must fail
/// (`error`) fails with `MessagesCheckPassed`.
pub fn passed_messages(queries: Result<(), String>, error: bool) -> (r: Result<(), GovError>)
    ensures
        queries matches Err(m) ==> (r matches Err(GovError::Query { msg }) && msg@ == m@),
        queries is Ok && error ==> r matches Err(GovError::MessagesCheckPassed),
        queries is Ok && !error ==> r is Ok,
{
    match queries {
        Err(m) => Err(GovError::Query { msg: m }),
        Ok(()) => if error {
            Err(GovError::MessagesCheckPassed)
        } else {
            Ok(())
        },
    }
}

} // verus!
