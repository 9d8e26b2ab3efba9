use membrane_contracts::emissions_voting::power::{voting_power, LockedDeposit, Locked, StakeDeposit};
use membrane_contracts::emissions_voting::state::{EmissionsVoting, GraphType, VotingError};

const OWNER: &str = "owner";
const USER1: &str = "user1";
const USER2: &str = "user2";
const NOW: u64 = 1571797419;
const DAY: u64 = 86400;

fn s(x: &str) -> String {
    x.to_string()
}

fn setup() -> EmissionsVoting {
    EmissionsVoting::instantiate(Some(s(OWNER)), s(OWNER), s("ltv_disco_contract"), s("staking_contract"))
}

fn disco(amount: u128, locked: Option<Locked>) -> LockedDeposit {
    LockedDeposit { vault_tokens: amount, locked }
}

fn stake(amount: u128, locked: Option<Locked>) -> StakeDeposit {
    StakeDeposit { amount, locked, unstake_start_time: None }
}

fn power_of(d: Vec<LockedDeposit>, st: Vec<StakeDeposit>, now: u64) -> u128 {
    voting_power(&Some(d), &Some(st), now).unwrap()
}

fn create(c: &mut EmissionsVoting, label: &str, t: GraphType, min: &str, max: &str, days: u64, now: u64) {
    c.create_graph(&s(OWNER), s(label), t, &s(min), &s(max), days, s("callback_contract"), now).unwrap();
}

#[test]
fn test_instantiate() {
    let c = setup();
    assert_eq!(c.config.owner, OWNER);
    assert_eq!(c.config.ltv_disco_contract, "ltv_disco_contract");
    assert_eq!(c.config.staking_contract, "staking_contract");
}

#[test]
fn test_instantiate_default_owner() {
    let c = EmissionsVoting::instantiate(None, s(USER1), s("ltv_disco_contract"), s("staking_contract"));
    assert_eq!(c.config.owner, USER1);
}

#[test]
fn test_create_uint128_graph() {
    let mut c = setup();
    create(&mut c, "emissions", GraphType::Uint128, "1000000", "10000000", 7, NOW);
    let g = c.query_graph(&s("emissions")).unwrap();
    assert_eq!(g.graph.label, "emissions");
    assert_eq!(g.graph.graph_type, GraphType::Uint128);
    assert_eq!(g.graph.range_min, 1000000);
    assert_eq!(g.graph.range_max, 10000000);
    assert_eq!(g.graph.period_days, 7);
}

#[test]
fn test_create_decimal_graph() {
    let mut c = setup();
    create(&mut c, "multiplier", GraphType::Decimal, "0.5", "2.0", 14, NOW);
    let g = c.query_graph(&s("multiplier")).unwrap();
    assert_eq!(g.graph.label, "multiplier");
    assert_eq!(g.graph.graph_type, GraphType::Decimal);
    assert_eq!(g.graph.range_min, 500_000_000_000_000_000);
    assert_eq!(g.graph.range_max, 2_000_000_000_000_000_000);
    assert_eq!(g.graph.period_days, 14);
}

#[test]
fn test_create_graph_unauthorized() {
    let mut c = setup();
    let err = c
        .create_graph(&s(USER1), s("test"), GraphType::Uint128, &s("0"), &s("100"), 7, s("callback_contract"), NOW)
        .unwrap_err();
    assert!(matches!(err, VotingError::Unauthorized));
}

#[test]
fn test_create_graph_duplicate_label() {
    let mut c = setup();
    create(&mut c, "test", GraphType::Uint128, "0", "100", 7, NOW);
    let err = c
        .create_graph(&s(OWNER), s("test"), GraphType::Uint128, &s("0"), &s("100"), 7, s("callback_contract"), NOW)
        .unwrap_err();
    match err {
        VotingError::GraphAlreadyExists { label } => assert_eq!(label, "test"),
        _ => panic!("Expected GraphAlreadyExists error"),
    }
}

#[test]
fn test_create_graph_invalid_range() {
    let mut c = setup();
    let err = c
        .create_graph(&s(OWNER), s("test"), GraphType::Uint128, &s("100"), &s("50"), 7, s("callback_contract"), NOW)
        .unwrap_err();
    assert!(matches!(err, VotingError::InvalidRange));
}

#[test]
fn test_vote_uint128() {
    let mut c = setup();
    create(&mut c, "test", GraphType::Uint128, "0", "1000", 7, NOW);
    // 1000000 (disco) + 500000 (staking), no lock so the multiplier is 1
    let power = power_of(vec![disco(1_000_000, None)], vec![stake(500_000, None)], NOW);
    assert_eq!(power, 1_500_000);
    c.vote(&s(USER1), &s("test"), &s("500"), power).unwrap();
    let v = c.query_user_vote(&s(USER1), &s("test")).unwrap();
    assert_eq!(v.voted_value, 500);
    assert_eq!(v.voting_power, 1_500_000);
}

#[test]
fn test_vote_decimal() {
    let mut c = setup();
    create(&mut c, "multiplier", GraphType::Decimal, "0.5", "2.0", 7, NOW);
    let power = power_of(vec![disco(1_000_000, None)], vec![], NOW);
    c.vote(&s(USER1), &s("multiplier"), &s("1.25"), power).unwrap();
    let v = c.query_user_vote(&s(USER1), &s("multiplier")).unwrap();
    assert_eq!(v.voted_value, 1_250_000_000_000_000_000);
}

#[test]
fn test_vote_out_of_range() {
    let mut c = setup();
    create(&mut c, "test", GraphType::Uint128, "100", "1000", 7, NOW);
    let power = power_of(vec![disco(1_000_000, None)], vec![], NOW);
    let err = c.vote(&s(USER1), &s("test"), &s("50"), power).unwrap_err();
    match err {
        VotingError::VoteOutOfRange { value, min, max } => {
            assert_eq!(value, "50");
            assert_eq!(min, "100");
            assert_eq!(max, "1000");
        }
        _ => panic!("Expected VoteOutOfRange error"),
    }
}

#[test]
fn test_vote_no_voting_power() {
    let mut c = setup();
    create(&mut c, "test", GraphType::Uint128, "0", "100", 7, NOW);
    let power = voting_power(&None, &None, NOW).unwrap();
    let err = c.vote(&s(USER1), &s("test"), &s("50"), power).unwrap_err();
    assert!(matches!(err, VotingError::NoVotingPower));
}

#[test]
fn test_vote_update() {
    let mut c = setup();
    create(&mut c, "test", GraphType::Uint128, "0", "1000", 7, NOW);
    let power = power_of(vec![disco(1_000_000, None)], vec![], NOW);
    c.vote(&s(USER1), &s("test"), &s("200"), power).unwrap();
    c.vote(&s(USER1), &s("test"), &s("800"), power).unwrap();
    let v = c.query_user_vote(&s(USER1), &s("test")).unwrap();
    assert_eq!(v.voted_value, 800);
    let res = c.query_current_result(&s("test"), NOW).unwrap();
    assert_eq!(res.result_uint128, Some(800));
}

#[test]
fn test_voting_power_with_perpetual_lock() {
    // A 30-day perpetual lock is a multiplier of 31.
    let locked = Some(Locked { locked_until: 0, perpetual_lock: Some(30) });
    let mut c = setup();
    create(&mut c, "test", GraphType::Uint128, "0", "100", 7, NOW);
    let power = power_of(vec![disco(1000, locked)], vec![], NOW);
    c.vote(&s(USER1), &s("test"), &s("50"), power).unwrap();
    let v = c.query_user_vote(&s(USER1), &s("test")).unwrap();
    assert_eq!(v.voting_power, 31000);
}

#[test]
fn test_voting_power_with_time_lock() {
    // Locked for 10 more days: 1000 * (10 + 1).
    let locked = Some(Locked { locked_until: NOW + 10 * DAY, perpetual_lock: None });
    let mut c = setup();
    create(&mut c, "test", GraphType::Uint128, "0", "100", 7, NOW);
    let power = power_of(vec![disco(1000, locked)], vec![], NOW);
    c.vote(&s(USER1), &s("test"), &s("50"), power).unwrap();
    let v = c.query_user_vote(&s(USER1), &s("test")).unwrap();
    assert_eq!(v.voting_power, 11000);
}

#[test]
fn test_voting_power_combined_sources() {
    let disco_lock = Some(Locked { locked_until: NOW + 20 * DAY, perpetual_lock: None });
    let stake_lock = Some(Locked { locked_until: 0, perpetual_lock: Some(10) });
    let mut c = setup();
    create(&mut c, "test", GraphType::Uint128, "0", "100", 7, NOW);
    // Disco: 1000 * 21 = 21000; staking: 2000 * 11 = 22000.
    let power = power_of(vec![disco(1000, disco_lock)], vec![stake(2000, stake_lock)], NOW);
    c.vote(&s(USER1), &s("test"), &s("50"), power).unwrap();
    let v = c.query_user_vote(&s(USER1), &s("test")).unwrap();
    assert_eq!(v.voting_power, 43000);
}

#[test]
fn test_weighted_average_single_voter() {
    let mut c = setup();
    create(&mut c, "test", GraphType::Uint128, "0", "1000", 7, NOW);
    c.vote(&s(USER1), &s("test"), &s("750"), power_of(vec![disco(1000, None)], vec![], NOW)).unwrap();
    let res = c.query_current_result(&s("test"), NOW).unwrap();
    assert_eq!(res.result_uint128, Some(750));
    assert_eq!(res.total_voting_power, 1000);
}

#[test]
fn test_weighted_average_multiple_voters() {
    // (1000*200 + 2000*500) / (1000 + 2000) = 400
    let mut c = setup();
    create(&mut c, "test", GraphType::Uint128, "0", "1000", 7, NOW);
    c.vote(&s(USER1), &s("test"), &s("200"), power_of(vec![disco(1000, None)], vec![], NOW)).unwrap();
    c.vote(&s(USER2), &s("test"), &s("500"), power_of(vec![disco(2000, None)], vec![], NOW)).unwrap();
    let res = c.query_current_result(&s("test"), NOW).unwrap();
    assert_eq!(res.result_uint128, Some(400));
    assert_eq!(res.total_voting_power, 3000);
}

#[test]
fn test_weighted_average_decimal() {
    // (1000 * 1.0 + 3000 * 1.5) / 4000 = 1.375
    let mut c = setup();
    create(&mut c, "mult", GraphType::Decimal, "0.5", "2.0", 7, NOW);
    c.vote(&s(USER1), &s("mult"), &s("1.0"), power_of(vec![disco(1000, None)], vec![], NOW)).unwrap();
    c.vote(&s(USER2), &s("mult"), &s("1.5"), power_of(vec![disco(3000, None)], vec![], NOW)).unwrap();
    let res = c.query_current_result(&s("mult"), NOW).unwrap();
    assert_eq!(res.result_decimal, Some(1_375_000_000_000_000_000));
}

#[test]
fn test_end_voting_period_not_ended() {
    let mut c = setup();
    create(&mut c, "test", GraphType::Uint128, "0", "100", 7, NOW);
    c.vote(&s(USER1), &s("test"), &s("50"), power_of(vec![disco(1000, None)], vec![], NOW)).unwrap();
    match c.end_voting(&s("test"), NOW) {
        Err(VotingError::PeriodNotEnded { .. }) => {}
        _ => panic!("Expected PeriodNotEnded error"),
    }
}

#[test]
fn test_end_voting_success() {
    let mut c = setup();
    create(&mut c, "test", GraphType::Uint128, "0", "100", 7, NOW);
    c.vote(&s(USER1), &s("test"), &s("75"), power_of(vec![disco(1000, None)], vec![], NOW)).unwrap();
    let later = NOW + 8 * DAY;
    let out = c.end_voting(&s("test"), later).unwrap();
    assert_eq!(out.label, "test");
    assert_eq!(out.callback_contract, "callback_contract");
    let history = c.query_period_history(&s("test"), None);
    assert_eq!(history.len(), 1);
    assert_eq!(history[0].result_uint128, Some(75));
    let res = c.query_current_result(&s("test"), later).unwrap();
    assert_eq!(res.total_voting_power, 0);
}

#[test]
fn test_end_voting_no_votes() {
    let mut c = setup();
    create(&mut c, "test", GraphType::Uint128, "0", "100", 7, NOW);
    let err = c.end_voting(&s("test"), NOW + 8 * DAY).unwrap_err();
    assert!(matches!(err, VotingError::NoVotes));
}

#[test]
fn test_query_graphs() {
    let mut c = setup();
    for i in 0..5 {
        create(&mut c, &format!("graph_{}", i), GraphType::Uint128, "0", "100", 7, NOW);
    }
    let graphs = c.query_graphs(None, Some(3)).unwrap();
    assert_eq!(graphs.len(), 3);
}

#[test]
fn test_query_all_votes() {
    let mut c = setup();
    create(&mut c, "test", GraphType::Uint128, "0", "100", 7, NOW);
    c.vote(&s(USER1), &s("test"), &s("25"), power_of(vec![disco(1000, None)], vec![], NOW)).unwrap();
    c.vote(&s(USER2), &s("test"), &s("75"), power_of(vec![disco(2000, None)], vec![], NOW)).unwrap();
    let (votes, total) = c.query_all_votes(&s("test"), None, None).unwrap();
    assert_eq!(votes.len(), 2);
    assert_eq!(total, 3000);
}

#[test]
fn test_update_graph() {
    let mut c = setup();
    create(&mut c, "test", GraphType::Uint128, "0", "100", 7, NOW);
    c.update_graph(&s(OWNER), &s("test"), Some(14), None).unwrap();
    let g = c.query_graph(&s("test")).unwrap();
    assert_eq!(g.graph.period_days, 14);
}

#[test]
fn test_remove_graph() {
    let mut c = setup();
    create(&mut c, "test", GraphType::Uint128, "0", "100", 7, NOW);
    c.remove_graph(&s(OWNER), &s("test")).unwrap();
    assert!(matches!(c.query_graph(&s("test")), Err(VotingError::GraphNotFound { .. })));
}

#[test]
fn test_update_config() {
    let mut c = setup();
    c.update_config(&s(OWNER), Some(s("new_owner")), None, None).unwrap();
    assert_eq!(c.config.owner, "new_owner");
}

#[test]
fn remove_vote_restores_the_result_and_has_any_votes() {
    let mut c = setup();
    create(&mut c, "test", GraphType::Uint128, "0", "1000", 7, NOW);
    assert!(!c.query_has_any_votes(&s(USER1)));
    let p1 = power_of(vec![disco(1_000_000, None)], vec![], NOW);
    let p2 = power_of(vec![disco(3_000_000, None)], vec![], NOW);
    c.vote(&s(USER1), &s("test"), &s("400"), p1).unwrap();
    c.vote(&s(USER2), &s("test"), &s("800"), p2).unwrap();
    assert!(c.query_has_any_votes(&s(USER1)));
    assert_eq!(c.query_current_result(&s("test"), NOW).unwrap().result_uint128, Some(700));
    c.remove_vote(&s(USER2), &s("test")).unwrap();
    assert_eq!(c.query_current_result(&s("test"), NOW).unwrap().result_uint128, Some(400));
    assert!(!c.query_has_any_votes(&s(USER2)));
    let err = c.remove_vote(&s(USER2), &s("test")).unwrap_err();
    assert!(!matches!(err, VotingError::NoVotingPower));
}
