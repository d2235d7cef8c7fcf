use angel_staking::contract::{execute_add_validator, execute_bond, execute_bond_check,
    execute_collect_rewards, execute_remove_validator, execute_transfer_balance, instantiate};
use angel_staking::error::ContractError;
use angel_staking::msg::{Coin, Command, InstantiateMsg};
use angel_staking::state::{State, ValidatorEntry, ValidatorInfo};
use angel_staking::time::Duration;

const DENOM: &str = "ustake";

fn fresh_pool() -> State {
    State::new("agent".to_string(), "manager".to_string(), "treasury".to_string())
}

fn entry(address: &str, bonded: u128) -> ValidatorEntry {
    ValidatorEntry {
        address: address.to_string(),
        info: ValidatorInfo {
            bond_denom: DENOM.to_string(),
            unbonding_period: Duration::Time(86400),
            bonded,
            claimed: 0,
        },
    }
}

/// A pool whose registry is listed ascending by (bonded, address).
fn staked_pool(validators: Vec<ValidatorEntry>) -> State {
    let bonded = validators.iter().map(|e| e.info.bonded).sum();
    State {
        agent: "agent".to_string(),
        manager: "manager".to_string(),
        treasury: "treasury".to_string(),
        bonded,
        claimed: 0,
        total_bonded: bonded,
        total_claimed: 0,
        validators,
        claims: Vec::new(),
    }
}

fn add(s: &mut State, address: &str) {
    let active = vec![address.to_string()];
    execute_add_validator(
        s,
        "manager",
        address.to_string(),
        DENOM.to_string(),
        Duration::Time(86400),
        &active,
        DENOM,
    )
    .unwrap();
}

#[test]
fn instantiate_starts_from_zero() {
    let s = instantiate(InstantiateMsg {
        agent: "agent".to_string(),
        manager: "manager".to_string(),
        treasury: "treasury".to_string(),
    });
    assert_eq!(s.agent, "agent");
    assert_eq!(s.manager, "manager");
    assert_eq!(s.treasury, "treasury");
    assert_eq!(s.bonded, 0);
    assert_eq!(s.claimed, 0);
    assert_eq!(s.total_bonded, 0);
    assert_eq!(s.total_claimed, 0);
    assert!(s.validators.is_empty());
    assert!(s.claims.is_empty());
}

#[test]
fn add_validator_starts_empty_and_registered() {
    let mut s = fresh_pool();
    add(&mut s, "alpha");
    assert_eq!(s.validators.len(), 1);
    assert_eq!(s.validators[0].address, "alpha");
    assert_eq!(s.validators[0].info.bonded, 0);
    assert_eq!(s.bonded, 0);
}

#[test]
fn add_validator_checks_the_caller() {
    let mut s = fresh_pool();
    let active = vec!["alpha".to_string()];
    let r = execute_add_validator(
        &mut s,
        "someone",
        "alpha".to_string(),
        DENOM.to_string(),
        Duration::Time(86400),
        &active,
        DENOM,
    );
    assert_eq!(r.unwrap_err(), ContractError::Unauthorized {});
}

#[test]
fn add_validator_requires_the_active_set() {
    let mut s = fresh_pool();
    let active = vec!["beta".to_string()];
    let r = execute_add_validator(
        &mut s,
        "manager",
        "alpha".to_string(),
        DENOM.to_string(),
        Duration::Time(86400),
        &active,
        DENOM,
    );
    assert_eq!(
        r.unwrap_err(),
        ContractError::NotInValidatorSet { validator: "alpha".to_string() }
    );
}

#[test]
fn add_validator_refuses_a_duplicate() {
    let mut s = fresh_pool();
    add(&mut s, "alpha");
    let active = vec!["alpha".to_string()];
    let r = execute_add_validator(
        &mut s,
        "manager",
        "alpha".to_string(),
        DENOM.to_string(),
        Duration::Time(86400),
        &active,
        DENOM,
    );
    assert_eq!(
        r.unwrap_err(),
        ContractError::ValidatorAlreadyRegistered { validator: "alpha".to_string() }
    );
}

#[test]
fn add_validator_requires_the_pool_denomination() {
    let mut s = fresh_pool();
    let active = vec!["alpha".to_string()];
    let r = execute_add_validator(
        &mut s,
        "manager",
        "alpha".to_string(),
        "uother".to_string(),
        Duration::Time(86400),
        &active,
        DENOM,
    );
    assert_eq!(
        r.unwrap_err(),
        ContractError::DenominationCanNotBeBonded { denom: "uother".to_string() }
    );
}

#[test]
fn bond_fills_the_least_loaded_validator() {
    let mut s = staked_pool(vec![entry("beta", 5), entry("alpha", 100)]);
    let cmds = execute_bond(
        &mut s,
        "agent",
        &vec![Coin { denom: DENOM.to_string(), amount: 40 }],
        7,
    )
    .unwrap();
    assert_eq!(cmds.len(), 1);
    match &cmds[0] {
        Command::Delegate { validator, amount } => {
            assert_eq!(validator, "beta");
            assert_eq!(amount.amount, 40);
            assert_eq!(amount.denom, DENOM);
        },
        other => panic!("unexpected command {:?}", other),
    }
    assert_eq!(s.bonded, 145);
    assert_eq!(s.total_bonded, 145);
    // the record moved past alpha in the ordering and kept its new amount
    let beta = s.validators.iter().find(|e| e.address == "beta").unwrap();
    assert_eq!(beta.info.bonded, 45);
}

#[test]
fn bond_rejects_bad_payments() {
    let mut s = staked_pool(vec![entry("alpha", 100)]);
    let none: Vec<Coin> = Vec::new();
    assert_eq!(
        execute_bond(&mut s, "agent", &none, 7).unwrap_err(),
        ContractError::NoFunds {}
    );
    let zero = vec![Coin { denom: DENOM.to_string(), amount: 0 }];
    assert_eq!(
        execute_bond(&mut s, "agent", &zero, 7).unwrap_err(),
        ContractError::NoFunds {}
    );
    let two = vec![
        Coin { denom: DENOM.to_string(), amount: 5 },
        Coin { denom: "uother".to_string(), amount: 5 },
    ];
    assert_eq!(
        execute_bond(&mut s, "agent", &two, 7).unwrap_err(),
        ContractError::MultipleDenoms {}
    );
    assert_eq!(s.bonded, 100);
}

#[test]
fn bond_needs_a_registered_validator() {
    let mut s = fresh_pool();
    let funds = vec![Coin { denom: DENOM.to_string(), amount: 5 }];
    assert_eq!(
        execute_bond(&mut s, "agent", &funds, 7).unwrap_err(),
        ContractError::NoEligibleValidator {}
    );
}

#[test]
fn bond_checks_the_caller() {
    let mut s = staked_pool(vec![entry("alpha", 100)]);
    let funds = vec![Coin { denom: DENOM.to_string(), amount: 5 }];
    assert_eq!(
        execute_bond(&mut s, "manager", &funds, 7).unwrap_err(),
        ContractError::Unauthorized {}
    );
}

#[test]
fn remove_validator_redelegates_to_the_least_loaded() {
    let mut s = staked_pool(vec![
        entry("gamma", 10),
        entry("beta", 50),
        entry("alpha", 100),
    ]);
    let delegation = Some(Coin { denom: DENOM.to_string(), amount: 100 });
    let cmds = execute_remove_validator(&mut s, "manager", "alpha", &delegation).unwrap();
    assert_eq!(cmds.len(), 1);
    match &cmds[0] {
        Command::Redelegate { src_validator, dst_validator, amount } => {
            assert_eq!(src_validator, "alpha");
            assert_eq!(dst_validator, "gamma");
            assert_eq!(amount.amount, 100);
        },
        other => panic!("unexpected command {:?}", other),
    }
    assert_eq!(s.validators.len(), 2);
    let gamma = s.validators.iter().find(|e| e.address == "gamma").unwrap();
    assert_eq!(gamma.info.bonded, 110);
    // the aggregate counter is untouched: the stake only moved
    assert_eq!(s.bonded, 160);
}

#[test]
fn remove_validator_without_stake_is_a_plain_deletion() {
    let mut s = staked_pool(vec![entry("beta", 0), entry("alpha", 100)]);
    s.bonded = 100;
    s.total_bonded = 100;
    let cmds = execute_remove_validator(&mut s, "manager", "beta", &None).unwrap();
    assert_eq!(cmds.len(), 0);
    assert_eq!(s.validators.len(), 1);
    assert_eq!(s.validators[0].address, "alpha");
    assert_eq!(s.bonded, 100);
}

#[test]
fn remove_sole_staked_validator_is_refused() {
    let mut s = staked_pool(vec![entry("alpha", 100)]);
    let delegation = Some(Coin { denom: DENOM.to_string(), amount: 100 });
    let r = execute_remove_validator(&mut s, "manager", "alpha", &delegation);
    assert_eq!(r.unwrap_err(), ContractError::CannotRedelegate {});
    // registry and counters unchanged
    assert_eq!(s.validators.len(), 1);
    assert_eq!(s.validators[0].info.bonded, 100);
    assert_eq!(s.bonded, 100);
}

#[test]
fn remove_unknown_validator_is_refused() {
    let mut s = staked_pool(vec![entry("alpha", 100)]);
    let r = execute_remove_validator(&mut s, "manager", "beta", &None);
    assert_eq!(
        r.unwrap_err(),
        ContractError::NotRegisteredValidator { address: "beta".to_string() }
    );
}

#[test]
fn bond_check_accepts_a_matching_total() {
    let s = staked_pool(vec![entry("beta", 60), entry("alpha", 100)]);
    let observed = vec![
        Coin { denom: DENOM.to_string(), amount: 100 },
        Coin { denom: DENOM.to_string(), amount: 60 },
    ];
    assert!(execute_bond_check(&s, "manager", &observed).is_ok());
}

#[test]
fn bond_check_reports_a_mismatch_and_changes_nothing() {
    let s = staked_pool(vec![entry("beta", 60), entry("alpha", 100)]);
    let observed = vec![Coin { denom: DENOM.to_string(), amount: 90 }];
    let r = execute_bond_check(&s, "manager", &observed);
    assert_eq!(
        r.unwrap_err(),
        ContractError::BondedDiffer { total_bonded: 90, state_total_bonded: 160 }
    );
    // read-only by construction: the state was only borrowed
    assert_eq!(s.bonded, 160);
    assert_eq!(s.validators.len(), 2);
}

#[test]
fn bond_check_refuses_mixed_denominations() {
    let s = staked_pool(vec![entry("alpha", 100)]);
    let observed = vec![
        Coin { denom: DENOM.to_string(), amount: 60 },
        Coin { denom: "uother".to_string(), amount: 40 },
    ];
    let r = execute_bond_check(&s, "manager", &observed);
    assert_eq!(
        r.unwrap_err(),
        ContractError::DifferentBondDenom {
            denom1: DENOM.to_string(),
            denom2: "uother".to_string(),
        }
    );
}

#[test]
fn collect_rewards_names_staked_validators_descending() {
    let s = staked_pool(vec![
        entry("delta", 0),
        entry("gamma", 10),
        entry("beta", 50),
        entry("alpha", 100),
    ]);
    let cmds = execute_collect_rewards(&s, "manager").unwrap();
    let names: Vec<&str> = cmds
        .iter()
        .map(|c| match c {
            Command::WithdrawReward { validator } => validator.as_str(),
            other => panic!("unexpected command {:?}", other),
        })
        .collect();
    assert_eq!(names, vec!["alpha", "beta", "gamma"]);
}

#[test]
fn transfer_balance_sends_everything_to_the_treasury() {
    let s = fresh_pool();
    let balance = Coin { denom: DENOM.to_string(), amount: 77 };
    let cmds = execute_transfer_balance(&s, "manager", &balance).unwrap();
    assert_eq!(cmds.len(), 1);
    match &cmds[0] {
        Command::Send { to_address, amount } => {
            assert_eq!(to_address, "treasury");
            assert_eq!(amount.amount, 77);
            assert_eq!(amount.denom, DENOM);
        },
        other => panic!("unexpected command {:?}", other),
    }
}

#[test]
fn transfer_of_nothing_is_refused() {
    let s = fresh_pool();
    let balance = Coin { denom: DENOM.to_string(), amount: 0 };
    let r = execute_transfer_balance(&s, "manager", &balance);
    assert_eq!(r.unwrap_err(), ContractError::NothingToTransfer {});
}
