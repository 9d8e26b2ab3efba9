use membrane_contracts::discount_vault::state::{Coin, DiscountVault, VaultError, VaultedLP, SECONDS_PER_DAY};
use membrane_contracts::discount_vault::vault::{LpEdit, PoolState};
use membrane_contracts::liq_queue::types::{Asset, AssetInfo};

const USER: &str = "user";
const ADMIN: &str = "admin";
const NOW: u64 = 1571797419;

/// The state of pool `id` as the osmosis proxy reports it: 50 OSMO and
/// 50 CDT for 100 shares.
fn pool(id: u64) -> PoolState {
    PoolState {
        pool_id: id,
        share_denom: format!("gamm/pool/{}", id),
        asset_denoms: vec!["uosmo".to_string(), "cdt".to_string()],
    }
}

fn proper_instantiate() -> DiscountVault {
    DiscountVault::instantiate(None, ADMIN.to_string(), "positions".to_string(), "osmosis_proxy".to_string(),
        &vec![pool(1)], &"cdt".to_string())
        .unwrap()
}

fn coin(amount: u128, denom: &str) -> Vec<Coin> {
    vec![Coin { denom: denom.to_string(), amount }]
}

fn native(denom: &str) -> AssetInfo {
    AssetInfo::NativeToken { denom: denom.to_string() }
}

fn same_lp(a: &VaultedLP, denom: &str, amount: u128, deposit_time: u64) -> bool {
    matches!(&a.gamm, AssetInfo::NativeToken { denom: d } if d == denom) && a.amount == amount && a.deposit_time == deposit_time
}

/// The discount value of `user`: each counted deposit's debt-token side
/// (half its shares, at a credit price of 1), doubled.
fn discount_value(vault: &DiscountVault, user: &str, minimum_deposit_time: Option<u64>, now: u64) -> (u128, Vec<VaultedLP>) {
    let deposits = vault.eligible_deposits(&user.to_string(), minimum_deposit_time, now).unwrap();
    let values: Vec<u128> = deposits
        .iter()
        .map(|d| match vault.counted_pool(d) {
            Some(_) => d.amount * 50 / 100,
            None => 0,
        })
        .collect();
    let resp = vault.user_response(user.to_string(), deposits, &values).unwrap();
    (resp.discount_value, resp.deposits)
}

#[test]
fn deposit() {
    let mut vault = proper_instantiate();

    //Deposit invalid asset: Error
    let err = vault.deposit(&USER.to_string(), &coin(100, "gamm/pool/0"), NOW).unwrap_err();
    assert!(matches!(err, VaultError::InvalidAsset));

    //Deposit: Success
    vault.deposit(&USER.to_string(), &coin(100, "gamm/pool/1"), NOW).unwrap();

    //Query User
    let (value, _) = discount_value(&vault, USER, None, NOW);
    assert_eq!(value, 100);

    //Add 7 days to the clock
    let now = NOW + 7 * SECONDS_PER_DAY;

    //Deposit: Success
    vault.deposit(&USER.to_string(), &coin(100, "gamm/pool/1"), now).unwrap();

    //Test minimum deposit time
    let (value, deposits) = discount_value(&vault, USER, Some(7), now);
    assert_eq!(value, 100);
    assert_eq!(deposits.len(), 1);
    assert!(same_lp(&deposits[0], "gamm/pool/1", 100, 1571797419));

    //Assert separate deposits were saved
    let (_, deposits) = discount_value(&vault, USER, None, now);
    assert_eq!(deposits.len(), 2);
    assert!(same_lp(&deposits[0], "gamm/pool/1", 100, 1571797419));
    assert!(same_lp(&deposits[1], "gamm/pool/1", 100, 1572402219));
}

#[test]
fn withdraw() {
    let mut vault = proper_instantiate();

    //Deposit: Success
    vault.deposit(&USER.to_string(), &coin(100, "gamm/pool/1"), NOW).unwrap();

    //Withdraw more than deposited: Error
    let err = vault
        .withdraw(&USER.to_string(), &vec![Asset { info: native("gamm/pool/1"), amount: 101 }])
        .unwrap_err();
    assert!(matches!(err, VaultError::InvalidWithdrawal { .. }));

    //Remove accept_lps
    vault.edit_LPs(&ADMIN.to_string(), LpEdit::Remove { pool_ids: vec![1] }).unwrap();

    //Withdraw: Success
    //Invalid asset nor Removed LPs have an effect on outcome
    let withdrawn = vault
        .withdraw(&USER.to_string(), &vec![
            Asset { info: native("gamm/pool/0"), amount: 100 },
            Asset { info: native("gamm/pool/1"), amount: 98 },
        ])
        .unwrap();

    //Check deposit
    let (value, deposits) = discount_value(&vault, USER, None, NOW);
    assert_eq!(value, 0);
    assert_eq!(deposits.len(), 1);
    assert!(same_lp(&deposits[0], "gamm/pool/1", 2, 1571797419));

    //Assert withdrawal success: only the owned asset is sent back
    assert_eq!(withdrawn.len(), 1);
    assert!(matches!(&withdrawn[0].info, AssetInfo::NativeToken { denom } if denom == "gamm/pool/1"));
    assert_eq!(withdrawn[0].amount, 98);
    assert_eq!(100_000 - 100 + withdrawn[0].amount, 99_998);
}

#[test]
fn change_owner() {
    let mut vault = proper_instantiate();

    //ChangeOwner
    vault.change_owner(&ADMIN.to_string(), String::from("different_owner")).unwrap();

    //Owner unchanged until new owner accepts
    assert_eq!(vault.config.owner.to_string(), String::from(ADMIN));

    //Accept ownership
    vault.change_owner(&"different_owner".to_string(), String::from("different_owner")).unwrap();

    assert_eq!(vault.config.owner.to_string(), String::from("different_owner"));
}

#[test]
fn edit_LPs() {
    let mut vault = proper_instantiate();

    //Add an LP
    vault
        .edit_LPs(&ADMIN.to_string(), LpEdit::Add { pools: vec![pool(2)], debt_denom: "cdt".to_string() })
        .unwrap();
    let lps = &vault.config.accepted_LPs;
    assert_eq!(lps.len(), 2);
    assert!(matches!(&lps[0].share_token, AssetInfo::NativeToken { denom } if denom == "gamm/pool/1"));
    assert_eq!(lps[0].pool_id, 1);
    assert!(matches!(&lps[1].share_token, AssetInfo::NativeToken { denom } if denom == "gamm/pool/2"));
    assert_eq!(lps[1].pool_id, 2);

    //Remove an LP
    vault.edit_LPs(&ADMIN.to_string(), LpEdit::Remove { pool_ids: vec![1] }).unwrap();
    let lps = &vault.config.accepted_LPs;
    assert_eq!(lps.len(), 1);
    assert!(matches!(&lps[0].share_token, AssetInfo::NativeToken { denom } if denom == "gamm/pool/2"));
    assert_eq!(lps[0].pool_id, 2);
}

#[test]
fn deposits_switched_off_are_refused() {
    let mut vault = proper_instantiate();
    vault.deposit(&USER.to_string(), &coin(100, "gamm/pool/1"), NOW).unwrap();
    vault.toggle_deposits(&ADMIN.to_string(), false).unwrap();
    let err = vault.deposit(&USER.to_string(), &coin(50, "gamm/pool/1"), NOW + 1).unwrap_err();
    assert!(matches!(err, VaultError::DepositsDisabled));
    assert_eq!(vault.users.len(), 1);
    assert_eq!(vault.users[0].vaulted_lps.len(), 1);
    assert!(same_lp(&vault.users[0].vaulted_lps[0], "gamm/pool/1", 100, NOW));
    vault.toggle_deposits(&ADMIN.to_string(), true).unwrap();
    vault.deposit(&USER.to_string(), &coin(50, "gamm/pool/1"), NOW + 1).unwrap();
    assert_eq!(vault.users[0].vaulted_lps.len(), 2);
    vault.deposit(&"another".to_string(), &coin(5, "gamm/pool/1"), NOW + 1).unwrap();
    assert_eq!(vault.users[0].user, "another");
    assert!(vault.is_wf());
    vault.users.swap(0, 1);
    assert!(!vault.is_wf());
}

#[test]
fn vault_owner_checks_and_ownership_errors() {
    let mut vault = proper_instantiate();
    let err = vault.edit_LPs(&USER.to_string(), LpEdit::Remove { pool_ids: vec![1] }).unwrap_err();
    assert!(matches!(err, VaultError::Unauthorized));
    let err = vault.toggle_deposits(&USER.to_string(), false).unwrap_err();
    assert!(matches!(err, VaultError::Unauthorized));
    vault.toggle_deposits(&ADMIN.to_string(), false).unwrap();
    assert!(!vault.config.deposits_enabled);
    let err = vault.change_owner(&USER.to_string(), USER.to_string()).unwrap_err();
    assert!(matches!(err, VaultError::NoOwnershipTransfer));
    vault.change_owner(&ADMIN.to_string(), "next".to_string()).unwrap();
    let err = vault.change_owner(&USER.to_string(), USER.to_string()).unwrap_err();
    assert!(matches!(err, VaultError::Unauthorized));
}

#[test]
fn pool_without_debt_token_is_refused() {
    let mut vault = proper_instantiate();
    let bad = PoolState { pool_id: 7, share_denom: "gamm/pool/7".to_string(), asset_denoms: vec!["uosmo".to_string()] };
    let err = vault
        .edit_LPs(&ADMIN.to_string(), LpEdit::Add { pools: vec![pool(2), bad], debt_denom: "cdt".to_string() })
        .unwrap_err();
    assert!(matches!(err, VaultError::LPWithoutDebtToken { pool_id: 7 }));
    assert_eq!(vault.config.accepted_LPs.len(), 1);
}

#[test]
fn withdraw_unknown_user_and_deposit_in_future() {
    let mut vault = proper_instantiate();
    let err = vault.withdraw(&USER.to_string(), &vec![]).unwrap_err();
    assert!(matches!(err, VaultError::UserNotFound));
    vault.deposit(&USER.to_string(), &coin(10, "gamm/pool/1"), NOW + 10).unwrap();
    let err = vault.eligible_deposits(&USER.to_string(), None, NOW).unwrap_err();
    assert!(matches!(err, VaultError::DepositInFuture));
}

#[test]
fn withdraw_takes_from_deposits_in_order() {
    let mut vault = proper_instantiate();
    vault.deposit(&USER.to_string(), &coin(30, "gamm/pool/1"), NOW).unwrap();
    vault.deposit(&USER.to_string(), &coin(50, "gamm/pool/1"), NOW + 1).unwrap();
    vault.withdraw(&USER.to_string(), &vec![Asset { info: native("gamm/pool/1"), amount: 40 }]).unwrap();
    let (_, deposits) = discount_value(&vault, USER, None, NOW + 1);
    assert!(same_lp(&deposits[0], "gamm/pool/1", 0, NOW));
    assert!(same_lp(&deposits[1], "gamm/pool/1", 40, NOW + 1));
}

#[test]
fn get_deposits_lists_users_in_order() {
    let mut vault = proper_instantiate();
    vault.deposit(&"b".to_string(), &coin(1, "gamm/pool/1"), NOW).unwrap();
    vault.deposit(&"a".to_string(), &coin(2, "gamm/pool/1"), NOW).unwrap();
    vault.deposit(&"c".to_string(), &coin(3, "gamm/pool/1"), NOW).unwrap();
    let all = vault.get_deposits(None, None);
    let names: Vec<String> = all.iter().map(|u| u.user.clone()).collect();
    assert_eq!(names, vec!["a".to_string(), "b".to_string(), "c".to_string()]);
    let after_a = vault.get_deposits(Some(1), Some("a".to_string()));
    assert_eq!(after_a.len(), 1);
    assert_eq!(after_a[0].user, "b".to_string());
    assert_eq!(after_a[0].vaulted_lps[0].amount, 1);
}

#[test]
fn discount_value_doubles_the_counted_values() {
    let vault = proper_instantiate();
    let deposits = vec![
        VaultedLP { gamm: native("gamm/pool/1"), amount: 10, deposit_time: NOW },
        VaultedLP { gamm: native("gamm/pool/9"), amount: 10, deposit_time: NOW },
    ];
    let resp = vault.user_response(USER.to_string(), deposits, &vec![5, 7]).unwrap();
    assert_eq!(resp.discount_value, 10);
    let deposits = vec![VaultedLP { gamm: native("gamm/pool/1"), amount: 10, deposit_time: NOW }];
    let err = vault.user_response(USER.to_string(), deposits, &vec![u128::MAX]).unwrap_err();
    assert!(matches!(err, VaultError::Overflow));
}
