use angel_staking::contract::chosen_validators_unstake;
use angel_staking::error::ContractError;
use angel_staking::state::{State, ValidatorEntry, ValidatorInfo};
use angel_staking::time::Duration;

fn entry(address: &str, denom: &str, bonded: u128) -> ValidatorEntry {
    ValidatorEntry {
        address: address.to_string(),
        info: ValidatorInfo {
            bond_denom: denom.to_string(),
            unbonding_period: Duration::Time(86400),
            bonded,
            claimed: 0,
        },
    }
}

/// A pool whose registry is listed ascending by (bonded, address).
fn pool(validators: Vec<ValidatorEntry>) -> State {
    let bonded = validators.iter().map(|e| e.info.bonded).sum();
    State {
        agent: "agent".to_string(),
        manager: "manager".to_string(),
        treasury: "treasury".to_string(),
        bonded,
        claimed: 0,
        total_bonded: bonded,
        total_claimed: 0,
        validators,
        claims: Vec::new(),
    }
}

#[test]
fn balanced_split_takes_the_most_loaded() {
    // A(100), B(50), C(10): unbonding 60 over 2 validators splits 30 + 30
    // across the two whose stake strictly exceeds the split
    let s = pool(vec![
        entry("gamma", "ustake", 10),
        entry("beta", "ustake", 50),
        entry("alpha", "ustake", 100),
    ]);
    let r = chosen_validators_unstake(&s, 60, "ustake", 2).unwrap();
    assert_eq!(r.len(), 2);
    assert_eq!(r[0].0, "alpha");
    assert_eq!(r[0].1.amount, 30);
    assert_eq!(r[0].1.denom, "ustake");
    assert_eq!(r[1].0, "beta");
    assert_eq!(r[1].1.amount, 30);
    let total: u128 = r.iter().map(|x| x.1.amount).sum();
    assert_eq!(total, 60);
}

#[test]
fn greedy_drain_when_too_few_qualify() {
    // only A's stake exceeds the split of 30, so the drain takes all 60
    // from A alone
    let s = pool(vec![
        entry("gamma", "ustake", 10),
        entry("beta", "ustake", 20),
        entry("alpha", "ustake", 100),
    ]);
    let r = chosen_validators_unstake(&s, 60, "ustake", 2).unwrap();
    assert_eq!(r.len(), 1);
    assert_eq!(r[0].0, "alpha");
    assert_eq!(r[0].1.amount, 60);
}

#[test]
fn greedy_drain_walks_down_the_ordering() {
    let s = pool(vec![
        entry("gamma", "ustake", 10),
        entry("beta", "ustake", 20),
        entry("alpha", "ustake", 100),
    ]);
    // 125 = all of A, all of B, and 5 out of C
    let r = chosen_validators_unstake(&s, 125, "ustake", 1).unwrap();
    assert_eq!(r.len(), 3);
    assert_eq!(r[0].0, "alpha");
    assert_eq!(r[0].1.amount, 100);
    assert_eq!(r[1].0, "beta");
    assert_eq!(r[1].1.amount, 20);
    assert_eq!(r[2].0, "gamma");
    assert_eq!(r[2].1.amount, 5);
    let total: u128 = r.iter().map(|x| x.1.amount).sum();
    assert_eq!(total, 125);
}

#[test]
fn capacity_shortfall_fails_closed() {
    let s = pool(vec![
        entry("gamma", "ustake", 10),
        entry("beta", "ustake", 50),
        entry("alpha", "ustake", 100),
    ]);
    let r = chosen_validators_unstake(&s, 200, "ustake", 2);
    assert_eq!(
        r.unwrap_err(),
        ContractError::UnableUnstakeAmount { amount: 200, number_validators: 3 }
    );
}

#[test]
fn inexact_balanced_split_fails_closed() {
    // both qualify for the split of 30, but 2 * 30 != 61
    let s = pool(vec![entry("beta", "ustake", 50), entry("alpha", "ustake", 100)]);
    let r = chosen_validators_unstake(&s, 61, "ustake", 2);
    assert_eq!(
        r.unwrap_err(),
        ContractError::UnableUnstakeAmount { amount: 61, number_validators: 2 }
    );
}

#[test]
fn balanced_split_respects_denomination() {
    // the off-denomination validator cannot join the balanced split, so
    // the drain covers the whole amount from the matching one
    let s = pool(vec![entry("beta", "uother", 50), entry("alpha", "ustake", 100)]);
    let r = chosen_validators_unstake(&s, 60, "ustake", 2).unwrap();
    assert_eq!(r.len(), 1);
    assert_eq!(r[0].0, "alpha");
    assert_eq!(r[0].1.amount, 60);
}

#[test]
fn empty_registry_cannot_cover_anything() {
    let s = pool(Vec::new());
    let r = chosen_validators_unstake(&s, 5, "ustake", 1);
    assert_eq!(
        r.unwrap_err(),
        ContractError::UnableUnstakeAmount { amount: 5, number_validators: 0 }
    );
}
