use membrane_contracts::governance::admin::{create_gauge, freeze_positions, UpdateConfig};
use membrane_contracts::governance::checks::{check_messages as dry_run, passed_messages, CdpFacts, CheckStep, LqFacts};
use membrane_contracts::governance::power::{
    calc_voting_power, Allocation, Delegation, DelegationInfo, GovStake, StakerEntry,
};
use membrane_contracts::governance::state::{
    uint_sqrt_floor, GovError, Governance, ProposalMessage, ProposalStatus, ProposalVoteOption,
};

const USER: &str = "user";
const ADMIN: &str = "admin";
const GOV: &str = "gov_contract";
const NOW: u64 = 1571797419;
const HEIGHT: u64 = 12345;

const PROPOSAL_VOTING_PERIOD: u64 = 14400;
const PROPOSAL_EFFECTIVE_DELAY: u64 = 2399;
const PROPOSAL_EXPIRATION_PERIOD: u64 = 2399 * 14;
const PROPOSAL_REQUIRED_STAKE: u128 = 1_000_000_000;
const PROPOSAL_REQUIRED_QUORUM: &str = "0.50";
const PROPOSAL_REQUIRED_THRESHOLD: &str = "0.60";
const NON_VESTED_TOTAL: u128 = 1_000_000_000_000;
const MULTIPLIER_33_PERCENT: u128 = 330_000_000_000_000_000;

/// The stake list the staking contract reports.
fn staked() -> Vec<(String, u128)> {
    vec![
        (USER.to_string(), 1_000_000_002),
        (ADMIN.to_string(), 60_000_000),
        ("alignment".to_string(), 980_000_000),
        ("alignment2.0".to_string(), 980_000_000_000),
    ]
}

fn stakes_of(user: &str) -> Option<Vec<GovStake>> {
    Some(
        staked()
            .into_iter()
            .filter(|(s, _)| s == user)
            .map(|(_, amount)| GovStake { amount, stake_time: 1, unstake_start_time: None })
            .collect(),
    )
}

fn stakers() -> Vec<StakerEntry> {
    staked()
        .into_iter()
        .map(|(staker, amount)| StakerEntry {
            staker,
            stake: GovStake { amount, stake_time: 1, unstake_start_time: None },
        })
        .collect()
}

fn delegation(amount: u128, voting_power_delegation: bool, time_of_delegation: u64) -> Delegation {
    Delegation { amount, time_of_delegation, voting_power_delegation }
}

/// The delegations the staking contract reports.
fn delegations() -> Option<Vec<DelegationInfo>> {
    Some(vec![
        DelegationInfo {
            user: USER.to_string(),
            delegated: vec![
                delegation(110000000, true, 0),
                delegation(110000000, false, 0),
                delegation(100000000464, true, 999999999999),
            ],
            delegated_to: vec![delegation(100000000, true, 0), delegation(100000000000, true, 999999999999)],
        },
        DelegationInfo {
            user: "who".to_string(),
            delegated: vec![
                delegation(60_000_000, true, 0),
                delegation(980_000_000, true, 0),
                delegation(980_000_000_000, true, 0),
            ],
            delegated_to: vec![],
        },
    ])
}

/// The allocation the vesting contract reports for any recipient.
fn allocation() -> Allocation {
    Allocation { amount: 3333_000000, amount_withdrawn: 0 }
}

fn power(sender: &str, recipient: Option<&str>, start: u64, expedited: bool, quadratic: bool) -> Result<(u128, bool), GovError> {
    calc_voting_power(
        &stakes_of(sender),
        Some(allocation()),
        &delegations(),
        &sender.to_string(),
        &recipient.map(|r| r.to_string()),
        start,
        expedited,
        quadratic,
        MULTIPLIER_33_PERCENT,
        NON_VESTED_TOTAL,
    )
}

fn proper_instantiate() -> Governance {
    Governance::instantiate(
        "mbrn_denom".to_string(),
        "staking_contract".to_string(),
        "vesting_contract".to_string(),
        MULTIPLIER_33_PERCENT,
        PROPOSAL_VOTING_PERIOD + 1,
        PROPOSAL_VOTING_PERIOD,
        PROPOSAL_EFFECTIVE_DELAY,
        PROPOSAL_EXPIRATION_PERIOD,
        PROPOSAL_REQUIRED_STAKE,
        &PROPOSAL_REQUIRED_QUORUM.to_string(),
        &PROPOSAL_REQUIRED_THRESHOLD.to_string(),
        vec!["https://some.link/".to_string()],
    )
    .unwrap()
}

fn update_message() -> Vec<ProposalMessage> {
    vec![ProposalMessage { order: 1, msg: b"update_config".to_vec() }]
}

/// The configuration change the proposals in these scenarios carry.
fn update(required_stake: Option<u128>) -> UpdateConfig {
    UpdateConfig {
        mbrn_denom: None,
        minimum_total_stake: None,
        staking_contract: None,
        vesting_contract_addr: None,
        proposal_voting_period: Some(PROPOSAL_VOTING_PERIOD + 1000),
        expedited_proposal_voting_period: Some(PROPOSAL_VOTING_PERIOD + 1000),
        proposal_effective_delay: None,
        proposal_expiration_period: None,
        proposal_required_stake: required_stake,
        proposal_required_quorum: None,
        proposal_required_threshold: None,
        whitelist_add: Some(vec!["https://some1.link/".to_string(), "https://some2.link/".to_string()]),
        whitelist_remove: Some(vec!["https://some.link/".to_string()]),
    }
}

fn submit(gov: &mut Governance, sender: &str, recipient: Option<&str>, messages: Option<Vec<ProposalMessage>>,
    expedited: bool, now: u64) -> Result<u64, GovError> {
    let p = power(sender, recipient, now, expedited, false);
    gov.submit_proposal(
        &sender.to_string(),
        "Test title!".to_string(),
        "Test description!".to_string(),
        Some("https://some.link/linker".to_string()),
        messages,
        recipient.map(|r| r.to_string()),
        NON_VESTED_TOTAL,
        p,
        now,
        HEIGHT,
    )
}

fn start_of(gov: &Governance, id: u64) -> u64 {
    gov.query_proposal(id).unwrap().start_time
}

fn vote(gov: &mut Governance, sender: &str, id: u64, option: ProposalVoteOption, recipient: Option<&str>,
    now: u64) -> Result<u128, GovError> {
    let start = match gov.query_proposal(id) {
        Ok(p) => p.start_time,
        Err(_) => gov
            .query_pending_proposals(Some(id), Some(1))
            .proposal_list
            .first()
            .map(|p| p.start_time)
            .unwrap_or(now),
    };
    let p = power(sender, recipient, start, false, gov.config.quadratic_voting);
    gov.cast_vote(&sender.to_string(), id, option, recipient.map(|r| r.to_string()), now, p)
}

fn total_power(gov: &Governance, id: u64) -> u128 {
    gov.query_total_voting_power(id, &stakers(), &vec![Some(allocation())], NON_VESTED_TOTAL).unwrap()
}

fn end(gov: &mut Governance, id: u64, now: u64) -> Result<ProposalStatus, GovError> {
    let tvp = gov.query_total_voting_power(id, &stakers(), &vec![Some(allocation())], NON_VESTED_TOTAL).ok();
    gov.end_proposal(id, now, tvp)
}

fn user_power(gov: &Governance, user: &str, id: u64, vesting: bool) -> u128 {
    let alloc = if vesting { Some(allocation()) } else { None };
    gov.query_user_voting_power(id, &user.to_string(), vesting, &stakes_of(user), alloc, &delegations(), NON_VESTED_TOTAL)
        .unwrap()
}

#[test]
fn stake_minimum() {
    let mut gov = proper_instantiate();

    //Submit Proposal: Under required stake
    submit(&mut gov, ADMIN, None, None, false, NOW).unwrap();

    //Can't Vote bc proposal hasn't reached the required stake
    let err = vote(&mut gov, "recipient", 1, ProposalVoteOption::For, Some("recipient"), NOW).unwrap_err();
    assert_eq!(err.message(), String::from("Proposal not active!"));
    //Align
    vote(&mut gov, "recipient", 1, ProposalVoteOption::Align, Some("recipient"), NOW).unwrap();

    //Successful submission
    submit(&mut gov, "recipient", Some("recipient"), None, false, NOW).unwrap();

    //Successful submission
    submit(&mut gov, USER, None, None, false, NOW).unwrap();
}

/// "recipient" submits, for itself, a proposal without messages with the
/// given texts; answers the error's text.
fn refused_texts(gov: &mut Governance, title: &str, description: &str, link: Option<&str>) -> String {
    let p = power("recipient", Some("recipient"), NOW, false, false);
    gov.submit_proposal(
        &"recipient".to_string(),
        title.to_string(),
        description.to_string(),
        link.map(|l| l.to_string()),
        None,
        Some("recipient".to_string()),
        NON_VESTED_TOTAL,
        p,
        NOW,
        HEIGHT,
    )
    .unwrap_err()
    .message()
}

#[test]
fn submit_proposal() {
    let mut gov = proper_instantiate();

    //Title too short
    let err = refused_texts(&mut gov, "X", "Test description!", None);
    assert_eq!(err, String::from("Generic error: Title too short!"));

    //Title too long
    let long_title = String::from_utf8(vec![b'X'; 65]).unwrap();
    let err = refused_texts(&mut gov, &long_title, "Test description!", None);
    assert_eq!(err, String::from("Generic error: Title too long!"));

    //Description too short
    let err = refused_texts(&mut gov, "Test Title", "X", None);
    assert_eq!(err, String::from("Generic error: Description too short!"));

    //Description too long
    let long_description = String::from_utf8(vec![b'X'; 1025]).unwrap();
    let err = refused_texts(&mut gov, "Test Title", &long_description, None);
    assert_eq!(err, String::from("Generic error: Description too long!"));

    //Link too short
    let err = refused_texts(&mut gov, "Test title!", "Test description!", Some("X"));
    assert_eq!(err, String::from("Generic error: Link too short!"));

    //Link too long
    let long_link = String::from_utf8(vec![b'X'; 129]).unwrap();
    let err = refused_texts(&mut gov, "Test title!", "Test description!", Some(&long_link));
    assert_eq!(err, String::from("Generic error: Link too long!"));

    //Link not whitelisted
    let err = refused_texts(&mut gov, "Test title!", "Test description!", Some("https://some1.link"));
    assert_eq!(err, String::from("Generic error: Link is not whitelisted!"));

    //Link unsafe characters
    let err = refused_texts(&mut gov, "Test title!", "Test description!",
        Some("https://some.link/<script>alert('test');</script>"));
    assert_eq!(err, String::from("Generic error: Link is not properly formatted or contains unsafe characters!"));

    //Nothing was saved
    assert!(gov.query_proposal(1).is_err());
    assert!(gov.is_wf());

    //Submit Proposal
    submit(&mut gov, "recipient", Some("recipient"), Some(update_message()), false, NOW).unwrap();

    let proposal = gov.query_proposal(1).unwrap();
    assert_eq!(proposal.proposal_id, 1u64);
    assert_eq!(proposal.submitter, String::from("recipient"));
    assert_eq!(proposal.status, ProposalStatus::Active);
    assert_eq!(proposal.for_power, 0);
    assert_eq!(proposal.against_power, 0);
    assert_eq!(proposal.start_block, 12_345);
    assert_eq!(proposal.end_block, proposal.start_time + (6 * (7 * 14400))); //Executables have a minimum 7 day voting period
    assert_eq!(proposal.title, String::from("Test title!"));
    assert_eq!(proposal.description, String::from("Test description!"));
    assert_eq!(proposal.link, Some(String::from("https://some.link/linker")));
    let messages = proposal.messages.unwrap();
    assert_eq!(messages.len(), 1);
    assert_eq!(messages[0].order, 1u64);
    assert_eq!(messages[0].msg, b"update_config".to_vec());
}

#[test]
fn successful_proposal() {
    let mut gov = proper_instantiate();
    let mut now = NOW;

    //Submit Proposal
    submit(&mut gov, "recipient", Some("recipient"), Some(update_message()), false, now).unwrap();

    // Fail bc they are proposal.submitter
    let err = vote(&mut gov, "recipient", 1, ProposalVoteOption::For, Some("recipient"), now).unwrap_err();
    assert_eq!(err.message(), String::from("Unauthorized"));

    //For
    vote(&mut gov, USER, 1, ProposalVoteOption::For, None, now).unwrap();
    //Against
    vote(&mut gov, ADMIN, 1, ProposalVoteOption::Against, None, now).unwrap();
    //Testing that delegates without stake can vote
    vote(&mut gov, "who", 1, ProposalVoteOption::Align, None, now).unwrap();
    //Align to pass Quorum
    vote(&mut gov, "alignment2.0", 1, ProposalVoteOption::Align, None, now).unwrap();

    let proposal = gov.query_proposal(1).unwrap();
    let proposal_votes = gov.query_proposal_votes(1).unwrap();
    let proposal_for_voters = gov.query_proposal_voters(1, ProposalVoteOption::For, None, None, None).unwrap();
    let proposal_against_voters = gov.query_proposal_voters(1, ProposalVoteOption::Against, None, None, None).unwrap();

    // Check proposal votes & assert quadratic weighing
    assert_eq!(proposal.for_power, 32112u128);
    assert_eq!(proposal.against_power, 7746u128);

    assert_eq!(proposal_votes.for_power, 32112u128);
    assert_eq!(proposal_votes.against_power, 7746u128);

    assert_eq!(proposal_for_voters, vec![String::from("user")]);
    assert_eq!(proposal_against_voters, vec![String::from("admin")]);

    //Query voting power
    let voting_power_1 = user_power(&gov, "user", 1, false);
    assert_eq!(voting_power_1, 32112);
    let voting_power_2 = user_power(&gov, "admin", 1, false);
    assert_eq!(voting_power_2, 7746);
    let voting_power_3 = user_power(&gov, "recipient", 1, true);
    assert_eq!(voting_power_3, 33165);
    let voting_power_4 = user_power(&gov, "alignment", 1, false);
    assert_eq!(voting_power_4, 31305);
    let voting_power_5 = user_power(&gov, "alignment2.0", 1, false);
    assert_eq!(voting_power_5, 989950);
    let _voting_power_6 = user_power(&gov, "who", 1, false);
    assert_eq!(voting_power_5, 989950);

    //Assert that delegated voting power is equal to the sum of the delegations
    let delegate_vp = user_power(&gov, "who", 1, false);
    assert_eq!(voting_power_2 + voting_power_4 + voting_power_5, delegate_vp);

    //Change the initial "Against" to "For"
    vote(&mut gov, ADMIN, 1, ProposalVoteOption::For, None, now).unwrap();

    let proposal = gov.query_proposal(1).unwrap();
    let proposal_votes = gov.query_proposal_votes(1).unwrap();
    let proposal_for_voters = gov.query_proposal_voters(1, ProposalVoteOption::For, None, None, None).unwrap();
    let proposal_against_voters = gov.query_proposal_voters(1, ProposalVoteOption::Against, None, None, None).unwrap();

    // Check proposal votes & assert quadratic weighing
    assert_eq!(proposal.for_power, 39858);
    assert_eq!(proposal.against_power, 0);

    assert_eq!(proposal_votes.for_power, 39858);
    assert_eq!(proposal_votes.against_power, 0);

    assert_eq!(proposal_for_voters, vec![String::from("user"), String::from("admin")]);
    assert_eq!(proposal_against_voters.len(), 0 as usize);

    // Skip voting period
    now += 6 * (7 * PROPOSAL_VOTING_PERIOD + 1);

    //Error bc voting period has passed
    let err = vote(&mut gov, USER, 1, ProposalVoteOption::For, None, now).unwrap_err();
    assert_eq!(err.message(), String::from("Voting period ended!"));

    //Try to execute the proposal before ending it
    let err = gov.execute_proposal(1, now).unwrap_err();
    assert_eq!(err.message(), String::from("Proposal not passed!"));

    //Successful End
    end(&mut gov, 1, now).unwrap();
    let proposal = gov.query_proposal(1).unwrap();
    assert_eq!(proposal.status, ProposalStatus::Passed);

    //Try to Execute before the delay
    let err = gov.execute_proposal(1, now).unwrap_err();
    assert_eq!(err.message(), String::from("Proposal delay not ended!"));

    // Skip blocks
    now += 6 * (PROPOSAL_EFFECTIVE_DELAY + 1);

    //Try to Execute after the delay: the proposal's message updates the config
    let msgs = gov.execute_proposal(1, now).unwrap();
    assert_eq!(msgs, vec![(1u64, b"update_config".to_vec())]);
    gov.update_config(&GOV.to_string(), &GOV.to_string(), update(None)).unwrap();

    // Check execution result
    let proposal = gov.query_proposal(1).unwrap();
    assert_eq!(gov.config.proposal_voting_period, PROPOSAL_VOTING_PERIOD + 1000);
    assert_eq!(
        gov.config.whitelisted_links,
        vec!["https://some1.link/".to_string(), "https://some2.link/".to_string()]
    );
    assert_eq!(proposal.status, ProposalStatus::Executed);

    //Try to remove proposal before expiration period
    let err = gov.remove_completed_proposal(&USER.to_string(), 1, now).unwrap_err();
    assert_eq!(err.message(), String::from("Proposal can't be removed!"));

    //Query Proposal
    let res = gov.query_proposals(None, None);
    assert_eq!(res.proposal_list.len(), 1);
    assert_eq!(res.proposal_count, 1u64);

    now += 6 * (PROPOSAL_EXPIRATION_PERIOD + 2);
    // Remove expired proposal
    gov.remove_completed_proposal(&"user0".to_string(), 1, now).unwrap();

    let res = gov.query_proposals(None, None);
    assert_eq!(res.proposal_list.len(), 0);
    // proposal_count should not be changed after removing a proposal
    assert_eq!(res.proposal_count, 1u64);
}

#[test]
fn expedited_proposal() {
    let mut gov = proper_instantiate();

    //Submit Proposal
    submit(&mut gov, "recipient", Some("recipient"), Some(update_message()), true, NOW).unwrap();

    //Query proposal to assert voting period
    let proposal = gov.query_proposal(1).unwrap();
    assert_eq!(proposal.start_time + (14400 * 6), proposal.end_block);

    //End Proposal without passing quorum
    let now = NOW + 6 * (14400 + 1);
    end(&mut gov, 1, now).unwrap();

    //- extended voting period
    //- Active status
    let proposal = gov.query_proposal(1).unwrap();
    assert_eq!(proposal.start_time + ((14400 + 1) * 6), proposal.end_block);
    assert_eq!(proposal.status, ProposalStatus::Active);
}

#[test]
fn successful_amend_and_remove_proposal() {
    let mut gov = proper_instantiate();
    let mut now = NOW;

    //Submit Proposal
    submit(&mut gov, "recipient", Some("recipient"), Some(update_message()), false, now).unwrap();

    ////Cast Votes
    vote(&mut gov, ADMIN, 1, ProposalVoteOption::For, None, now).unwrap();
    vote(&mut gov, USER, 1, ProposalVoteOption::Amend, None, now).unwrap();
    vote(&mut gov, "alignment2.0", 1, ProposalVoteOption::Align, None, now).unwrap();
    vote(&mut gov, "who", 1, ProposalVoteOption::Align, None, now).unwrap();

    let proposal = gov.query_proposal(1).unwrap();
    let proposal_votes = gov.query_proposal_votes(1).unwrap();
    let proposal_for_voters = gov.query_proposal_voters(1, ProposalVoteOption::For, None, None, None).unwrap();
    let proposal_amend_voters = gov.query_proposal_voters(1, ProposalVoteOption::Amend, None, None, None).unwrap();

    // Check proposal votes & assert quadratic weighing
    assert_eq!(proposal.amendment_power, 32112u128);
    assert_eq!(proposal.for_power, 7746u128);
    assert_eq!(proposal_votes.amendment_power, 32112u128);
    assert_eq!(proposal_votes.for_power, 7746u128);
    assert_eq!(proposal_for_voters, vec![String::from("admin")]);
    assert_eq!(proposal_amend_voters, vec![String::from("user")]);

    // Skip voting period
    now += 6 * (7 * PROPOSAL_VOTING_PERIOD + 1);

    //Successful End: AmendmentDesired
    end(&mut gov, 1, now).unwrap();
    let proposal = gov.query_proposal(1).unwrap();
    assert_eq!(proposal.status, ProposalStatus::AmendmentDesired);

    /////Proposal 2 - Removed for Spam/////
    submit(&mut gov, "recipient", Some("recipient"), Some(update_message()), false, now).unwrap();

    vote(&mut gov, ADMIN, 2, ProposalVoteOption::Remove, None, now).unwrap();
    vote(&mut gov, USER, 2, ProposalVoteOption::Remove, None, now).unwrap();
    vote(&mut gov, "alignment2.0", 2, ProposalVoteOption::Align, None, now).unwrap();
    vote(&mut gov, "who", 2, ProposalVoteOption::Align, None, now).unwrap();

    let proposal = gov.query_proposal(2).unwrap();
    let proposal_votes = gov.query_proposal_votes(2).unwrap();
    let proposal_removal_voters = gov.query_proposal_voters(2, ProposalVoteOption::Remove, None, None, None).unwrap();

    // Check proposal votes & assert quadratic weighing
    assert_eq!(proposal.removal_power, 32112u128 + 7746u128);
    assert_eq!(proposal_votes.removal_power, 32112u128 + 7746u128);
    assert_eq!(proposal_removal_voters, vec![String::from("admin"), String::from("user")]);

    // Skip voting period
    now += 6 * (7 * PROPOSAL_VOTING_PERIOD + 1);

    //Successful End: Removed
    end(&mut gov, 2, now).unwrap();

    let res = gov.query_proposals(None, None);
    assert_eq!(res.proposal_list.len(), 1); //Length should stay 1 since the 2nd was removed
    assert_eq!(res.proposal_count, 2u64);
}

#[test]
fn pending_proposals() {
    let mut gov = proper_instantiate();
    let mut now = NOW;

    //Submit Proposal
    submit(&mut gov, ADMIN, None, Some(update_message()), false, now).unwrap();

    let proposals = gov.query_pending_proposals(None, None);
    assert_eq!(proposals.proposal_list.len(), 1);

    //Align
    vote(&mut gov, "alignment", 1, ProposalVoteOption::Align, None, now).unwrap();

    let proposal = gov.query_proposal(1).unwrap();
    assert_eq!(proposal.aligned_power, 1000006324);

    //Submit Proposal 2
    submit(&mut gov, ADMIN, None, Some(update_message()), false, now).unwrap();

    now += 14401 * 6;

    //Remove pending proposal
    gov.remove_completed_proposal(&USER.to_string(), 2, now).unwrap();

    let proposals = gov.query_pending_proposals(None, None);
    assert_eq!(proposals.proposal_list.len(), 0);
}

#[test]
fn unsuccessful_proposal() {
    let mut gov = proper_instantiate();
    let mut now = NOW;

    //Submit Proposal
    submit(&mut gov, "recipient", Some("recipient"), Some(update_message()), false, now).unwrap();

    vote(&mut gov, USER, 1, ProposalVoteOption::Against, None, now).unwrap();
    vote(&mut gov, ADMIN, 1, ProposalVoteOption::For, None, now).unwrap();
    vote(&mut gov, "alignment2.0", 1, ProposalVoteOption::Align, None, now).unwrap();

    now += 6 * (7 * PROPOSAL_VOTING_PERIOD + 1);
    end(&mut gov, 1, now).unwrap();

    let proposal = gov.query_proposal(1).unwrap();
    assert_eq!(proposal.status, ProposalStatus::Rejected);

    now += 6 * (PROPOSAL_EXPIRATION_PERIOD + PROPOSAL_EFFECTIVE_DELAY + 1);
    gov.remove_completed_proposal(&USER.to_string(), 1, now).unwrap();

    let res = gov.query_proposals(None, None);
    assert_eq!(res.proposal_list.len(), 0);
    assert_eq!(res.proposal_count, 1u64);
}

#[test]
fn check_messages() {
    let gov = proper_instantiate();
    let voting_period_before = gov.config.proposal_voting_period;
    let links_before = gov.config.whitelisted_links.clone();

    let (msgs, steps) = dry_run(&update_message(), None, None, None).unwrap();
    assert_eq!(msgs, vec![(1u64, b"update_config".to_vec())]);
    assert_eq!(steps, vec![CheckStep::FailCheck]);
    let err = passed_messages(Ok(()), true).unwrap_err();
    assert_eq!(&err.message(), "Messages check passed. Nothing was committed to the blockchain");

    // Nothing of the dry run was committed
    assert_eq!(gov.config.proposal_voting_period, voting_period_before);
    assert_eq!(gov.config.whitelisted_links, links_before);
}

#[test]
fn one_vote_per_voter_on_revote() {
    let mut gov = proper_instantiate();
    submit(&mut gov, "recipient", Some("recipient"), None, false, NOW).unwrap();
    vote(&mut gov, USER, 1, ProposalVoteOption::Against, None, NOW).unwrap();
    vote(&mut gov, USER, 1, ProposalVoteOption::Amend, None, NOW).unwrap();
    vote(&mut gov, USER, 1, ProposalVoteOption::For, None, NOW).unwrap();
    let p = gov.query_proposal(1).unwrap();
    assert_eq!(p.for_voters, vec![USER.to_string()]);
    assert!(p.against_voters.is_empty());
    assert!(p.amendment_voters.is_empty());
    assert_eq!(p.for_power, 32112);
    assert_eq!(p.against_power, 0);
    assert_eq!(p.amendment_power, 0);
}

#[test]
fn executed_proposal_cannot_run_twice() {
    let mut gov = proper_instantiate();
    let mut now = NOW;
    submit(&mut gov, "recipient", Some("recipient"), None, false, now).unwrap();
    vote(&mut gov, USER, 1, ProposalVoteOption::For, None, now).unwrap();
    vote(&mut gov, "alignment2.0", 1, ProposalVoteOption::Align, None, now).unwrap();
    now += 6 * (PROPOSAL_VOTING_PERIOD + 2);
    assert_eq!(end(&mut gov, 1, now).unwrap(), ProposalStatus::Passed);
    now += 6 * (PROPOSAL_EFFECTIVE_DELAY + 1);
    assert_eq!(gov.execute_proposal(1, now).unwrap(), vec![]);
    let err = gov.execute_proposal(1, now).unwrap_err();
    assert!(matches!(err, GovError::ProposalNotPassed));
}

#[test]
fn proposal_voters_pages_and_specific_user() {
    let mut gov = proper_instantiate();
    submit(&mut gov, "recipient", Some("recipient"), None, false, NOW).unwrap();
    vote(&mut gov, USER, 1, ProposalVoteOption::For, None, NOW).unwrap();
    vote(&mut gov, ADMIN, 1, ProposalVoteOption::For, None, NOW).unwrap();
    vote(&mut gov, "alignment", 1, ProposalVoteOption::For, None, NOW).unwrap();
    let page = gov.query_proposal_voters(1, ProposalVoteOption::For, Some(1), Some(1), None).unwrap();
    assert_eq!(page, vec![ADMIN.to_string()]);
    let past = gov.query_proposal_voters(1, ProposalVoteOption::For, Some(5), None, None).unwrap();
    assert!(past.is_empty());
    let me = gov.query_proposal_voters(1, ProposalVoteOption::For, None, None, Some(ADMIN.to_string())).unwrap();
    assert_eq!(me, vec![ADMIN.to_string()]);
    let err = gov.query_proposal_voters(1, ProposalVoteOption::Against, None, None, Some(ADMIN.to_string())).unwrap_err();
    assert!(matches!(err, GovError::UserDidNotVote));
    let err = gov.query_proposal_voters(9, ProposalVoteOption::For, None, None, None).unwrap_err();
    assert!(matches!(err, GovError::ProposalNotFound));
}

#[test]
fn total_voting_power_counts_stakers_once_and_vesting() {
    let mut gov = proper_instantiate();
    submit(&mut gov, "recipient", Some("recipient"), None, false, NOW).unwrap();
    // sqrt(1_000_000_002) + sqrt(60_000_000) + sqrt(980_000_000) + sqrt(980_000_000_000), each rounded up,
    // plus sqrt(1_099_890_000) of the vesting recipient, rounded down.
    assert_eq!(total_power(&gov, 1), 31623 + 7746 + 31305 + 989950 + 33164);
    assert_eq!(start_of(&gov, 1), NOW);
}

#[test]
fn update_config_only_by_the_contract() {
    let mut gov = proper_instantiate();
    let err = gov.update_config(&ADMIN.to_string(), &GOV.to_string(), update(None)).unwrap_err();
    assert!(matches!(err, GovError::Unauthorized));
    let mut u = update(Some(70_000_000));
    u.whitelist_add = None;
    gov.update_config(&GOV.to_string(), &GOV.to_string(), u).unwrap_err();
    let mut u = update(Some(70_000_000));
    u.proposal_required_quorum = Some("not a decimal".to_string());
    let err = gov.update_config(&GOV.to_string(), &GOV.to_string(), u).unwrap_err();
    assert!(matches!(err, GovError::InvalidDecimal));
    gov.update_config(&GOV.to_string(), &GOV.to_string(), update(Some(70_000_000))).unwrap();
    assert_eq!(gov.config.proposal_required_stake, 70_000_000);
}

#[test]
fn insufficient_total_stake_is_refused() {
    let mut gov = proper_instantiate();
    let p = power(USER, None, NOW, false, false);
    let err = gov
        .submit_proposal(&USER.to_string(), "Test title!".to_string(), "Test description!".to_string(), None, None, None,
            1_000, p, NOW, HEIGHT)
        .unwrap_err();
    assert_eq!(err.message(), String::from("Total staked amount isn't greater than 1000000000000"));
}

#[test]
fn only_the_founder_freezes_positions() {
    let founder = "osmo1988s5h45qwkaqch8km4ceagw2e08vdw28mwk4n".to_string();
    let err = freeze_positions(&USER.to_string(), true, vec![]).unwrap_err();
    assert!(matches!(err, GovError::Unauthorized));
    let order = freeze_positions(&founder, true, vec![]).unwrap();
    assert!(order.frozen);
    assert!(order.zeroed_supply_caps.is_none());
    let order = freeze_positions(&founder, false, vec!["uosmo".to_string()]).unwrap();
    assert!(!order.frozen);
    assert_eq!(order.zeroed_supply_caps, Some(vec!["uosmo".to_string()]));

    assert!(create_gauge(&GOV.to_string(), &GOV.to_string()).is_ok());
    assert!(matches!(create_gauge(&USER.to_string(), &GOV.to_string()).unwrap_err(), GovError::Unauthorized));
}

#[test]
fn dry_run_steps_by_switch() {
    let cdp = CdpFacts { current_position_id: 4, uosmo_balance: 10, debt_minimum: Some(2) };
    let (_, steps) = dry_run(&vec![], Some(0), Some(cdp), None).unwrap();
    assert_eq!(steps, vec![
        CheckStep::CdpDeposit { amount: 10 },
        CheckStep::CdpIncreaseDebt { position_id: 4, amount: 2_000_000 },
        CheckStep::CdpRepay { position_id: 4, amount: 2_000_000 },
        CheckStep::CdpWithdraw { position_id: 4, amount: 10 },
        CheckStep::FailCheck,
    ]);
    let (_, steps) = dry_run(&vec![], Some(1), None, None).unwrap();
    assert_eq!(steps, vec![CheckStep::Unstake, CheckStep::Stake { amount: 1_000_000 }, CheckStep::Unstake, CheckStep::FailCheck]);
    let lq = LqFacts { credit_balance: 1, minimum_bid: 5, current_bid_id: 9 };
    let (_, steps) = dry_run(&vec![], Some(2), None, Some(lq)).unwrap();
    assert_eq!(steps, vec![
        CheckStep::MintCredit { amount: 5 },
        CheckStep::SubmitBid { amount: 5 },
        CheckStep::RetractBid { bid_id: 9 },
        CheckStep::FailCheck,
    ]);
    assert!(matches!(dry_run(&vec![], Some(2), None, None).unwrap_err(), GovError::QueryFailed));
    let messages = vec![
        ProposalMessage { order: 2, msg: b"b".to_vec() },
        ProposalMessage { order: 1, msg: b"a".to_vec() },
        ProposalMessage { order: 2, msg: b"c".to_vec() },
    ];
    let (msgs, _) = dry_run(&messages, None, None, None).unwrap();
    assert_eq!(msgs, vec![(1, b"a".to_vec()), (2, b"b".to_vec()), (2, b"c".to_vec())]);
    assert!(passed_messages(Ok(()), false).is_ok());
    let err = passed_messages(Err("Querier system error: No such contract".to_string()), true).unwrap_err();
    assert_eq!(err.message(), "Querier system error: No such contract");
}

#[test]
fn integer_square_roots() {
    assert_eq!(uint_sqrt_floor(0), Some(0));
    assert_eq!(uint_sqrt_floor(16), Some(4));
    assert_eq!(uint_sqrt_floor(17), Some(4));
    assert_eq!(uint_sqrt_floor(100_000_000_000_000_000_000), Some(10_000_000_000));
    assert_eq!(uint_sqrt_floor(340_282_366_920_938_463_463), Some(18_446_744_073));
    assert_eq!(uint_sqrt_floor(340_282_366_920_938_463_464), None);
}

#[test]
fn total_power_counts_each_stake_once() {
    let mut gov = proper_instantiate();
    gov.config.quadratic_voting = false;
    submit(&mut gov, "recipient", Some("recipient"), None, false, NOW).unwrap();
    let entry = |s: &str, amount: u128| StakerEntry {
        staker: s.to_string(),
        stake: GovStake { amount, stake_time: 1, unstake_start_time: None },
    };
    let stakers = vec![entry("a", 5), entry("b", 7), entry("a", 11)];
    assert_eq!(gov.query_total_voting_power(1, &stakers, &vec![], NON_VESTED_TOTAL).unwrap(), 23);
    assert_eq!(
        gov.query_total_voting_power(1, &stakers, &vec![Some(allocation())], NON_VESTED_TOTAL).unwrap(),
        23 + 1_099_890_000
    );
}
