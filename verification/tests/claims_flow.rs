use angel_staking::contract::{execute_bond, execute_claim, execute_unbond, query};
use angel_staking::error::ContractError;
use angel_staking::msg::{Coin, Command, QueryAnswer, QueryMsg};
use angel_staking::state::{State, ValidatorEntry, ValidatorInfo};
use angel_staking::time::{BlockInfo, Duration, Expiration};

const DENOM: &str = "ustake";

fn entry(address: &str, bonded: u128, period: Duration) -> ValidatorEntry {
    ValidatorEntry {
        address: address.to_string(),
        info: ValidatorInfo {
            bond_denom: DENOM.to_string(),
            unbonding_period: period,
            bonded,
            claimed: 0,
        },
    }
}

/// A pool whose registry is listed ascending by (bonded, address).
fn staked_pool(validators: Vec<ValidatorEntry>) -> State {
    let bonded = validators.iter().map(|e| e.info.bonded).sum();
    State {
        agent: "agent".to_string(),
        manager: "manager".to_string(),
        treasury: "treasury".to_string(),
        bonded,
        claimed: 0,
        total_bonded: bonded,
        total_claimed: 0,
        validators,
        claims: Vec::new(),
    }
}

fn block(time: u64) -> BlockInfo {
    BlockInfo { height: 1000, time }
}

#[test]
fn unbond_writes_claims_per_contributing_validator() {
    // the balanced split selects the two most loaded; each contributes
    // its own unbonding period to its claim
    let mut s = staked_pool(vec![
        entry("gamma", 10, Duration::Time(100)),
        entry("beta", 50, Duration::Time(200)),
        entry("alpha", 100, Duration::Time(300)),
    ]);
    let cmds = execute_unbond(&mut s, "agent", "7", 60, DENOM, &block(1_000)).unwrap();
    assert_eq!(cmds.len(), 2);
    match &cmds[0] {
        Command::Undelegate { validator, amount } => {
            assert_eq!(validator, "alpha");
            assert_eq!(amount.amount, 30);
        },
        other => panic!("unexpected command {:?}", other),
    }
    match &cmds[1] {
        Command::Undelegate { validator, amount } => {
            assert_eq!(validator, "beta");
            assert_eq!(amount.amount, 30);
        },
        other => panic!("unexpected command {:?}", other),
    }
    assert_eq!(s.bonded, 100);
    assert_eq!(s.claimed, 60);
    assert_eq!(s.total_claimed, 60);
    assert_eq!(s.claims.len(), 2);
    assert_eq!(s.claims[0].owner, "7");
    assert_eq!(s.claims[0].amount, 30);
    assert_eq!(s.claims[0].release_at, Expiration::AtTime(1_300));
    assert_eq!(s.claims[1].amount, 30);
    assert_eq!(s.claims[1].release_at, Expiration::AtTime(1_200));
    // the registry records fell with the undelegations
    let alpha = s.validators.iter().find(|e| e.address == "alpha").unwrap();
    assert_eq!(alpha.info.bonded, 70);
    let beta = s.validators.iter().find(|e| e.address == "beta").unwrap();
    assert_eq!(beta.info.bonded, 20);
}

#[test]
fn unbond_drains_one_validator_when_only_one_qualifies() {
    // only alpha's stake exceeds the split, so the whole 60 comes from
    // alpha in one piece: a single claim of 60
    let mut s = staked_pool(vec![
        entry("gamma", 10, Duration::Time(100)),
        entry("beta", 20, Duration::Time(200)),
        entry("alpha", 100, Duration::Time(300)),
    ]);
    let cmds = execute_unbond(&mut s, "agent", "7", 60, DENOM, &block(1_000)).unwrap();
    assert_eq!(cmds.len(), 1);
    match &cmds[0] {
        Command::Undelegate { validator, amount } => {
            assert_eq!(validator, "alpha");
            assert_eq!(amount.amount, 60);
        },
        other => panic!("unexpected command {:?}", other),
    }
    assert_eq!(s.claims.len(), 1);
    assert_eq!(s.claims[0].owner, "7");
    assert_eq!(s.claims[0].amount, 60);
    assert_eq!(s.claims[0].release_at, Expiration::AtTime(1_300));
    assert_eq!(s.bonded, 70);
    assert_eq!(s.claimed, 60);
}

#[test]
fn unbond_checks_the_caller_and_capacity() {
    let mut s = staked_pool(vec![entry("alpha", 100, Duration::Time(300))]);
    assert_eq!(
        execute_unbond(&mut s, "intruder", "7", 60, DENOM, &block(1_000)).unwrap_err(),
        ContractError::Unauthorized {}
    );
    assert_eq!(
        execute_unbond(&mut s, "agent", "7", 500, DENOM, &block(1_000)).unwrap_err(),
        ContractError::UnableUnstakeAmount { amount: 500, number_validators: 1 }
    );
    assert_eq!(s.bonded, 100);
    assert_eq!(s.claims.len(), 0);
}

#[test]
fn claim_before_release_yields_nothing_and_keeps_the_ledger() {
    let mut s = staked_pool(vec![entry("alpha", 100, Duration::Time(300))]);
    execute_unbond(&mut s, "agent", "7", 40, DENOM, &block(1_000)).unwrap();
    assert_eq!(s.claims.len(), 1);
    let balance = Coin { denom: DENOM.to_string(), amount: 1_000 };
    let r = execute_claim(&mut s, "agent", "7", "bob", &balance, &block(1_299));
    assert_eq!(r.unwrap_err(), ContractError::NothingToClaim {});
    assert_eq!(s.claims.len(), 1);
    assert_eq!(s.claimed, 40);
}

#[test]
fn claim_after_release_pays_and_clears_the_entry() {
    let mut s = staked_pool(vec![entry("alpha", 100, Duration::Time(300))]);
    execute_unbond(&mut s, "agent", "7", 40, DENOM, &block(1_000)).unwrap();
    let balance = Coin { denom: DENOM.to_string(), amount: 1_000 };
    let cmds = execute_claim(&mut s, "agent", "7", "bob", &balance, &block(1_300)).unwrap();
    assert_eq!(cmds.len(), 1);
    match &cmds[0] {
        Command::Send { to_address, amount } => {
            assert_eq!(to_address, "bob");
            assert_eq!(amount.amount, 40);
            assert_eq!(amount.denom, DENOM);
        },
        other => panic!("unexpected command {:?}", other),
    }
    assert_eq!(s.claims.len(), 0);
    assert_eq!(s.claimed, 0);
    assert_eq!(s.total_claimed, 40);
}

#[test]
fn claim_with_a_short_balance_keeps_the_ledger_for_a_retry() {
    let mut s = staked_pool(vec![entry("alpha", 100, Duration::Time(300))]);
    execute_unbond(&mut s, "agent", "7", 40, DENOM, &block(1_000)).unwrap();
    let balance = Coin { denom: DENOM.to_string(), amount: 10 };
    let r = execute_claim(&mut s, "agent", "7", "bob", &balance, &block(2_000));
    assert_eq!(r.unwrap_err(), ContractError::BalanceTooSmall {});
    assert_eq!(s.claims.len(), 1);
    assert_eq!(s.claimed, 40);
}

#[test]
fn claim_only_releases_the_callers_entries() {
    let mut s = staked_pool(vec![
        entry("beta", 80, Duration::Time(100)),
        entry("alpha", 100, Duration::Time(300)),
    ]);
    execute_unbond(&mut s, "agent", "7", 90, DENOM, &block(1_000)).unwrap();
    execute_unbond(&mut s, "agent", "8", 30, DENOM, &block(1_000)).unwrap();
    let balance = Coin { denom: DENOM.to_string(), amount: 1_000 };
    let cmds = execute_claim(&mut s, "agent", "8", "jane", &balance, &block(5_000)).unwrap();
    match &cmds[0] {
        Command::Send { to_address, amount } => {
            assert_eq!(to_address, "jane");
            assert_eq!(amount.amount, 30);
        },
        other => panic!("unexpected command {:?}", other),
    }
    // the other depositor's claims stay
    assert_eq!(s.claims.len(), 2);
    assert!(s.claims.iter().all(|c| c.owner == "7"));
}

#[test]
fn bond_then_unbond_restores_the_bonded_counter() {
    let mut s = staked_pool(vec![entry("alpha", 0, Duration::Time(300))]);
    let before = s.bonded;
    let funds = vec![Coin { denom: DENOM.to_string(), amount: 100 }];
    execute_bond(&mut s, "agent", &funds, 7).unwrap();
    assert_eq!(s.bonded, before + 100);
    execute_unbond(&mut s, "agent", "7", 100, DENOM, &block(1_000)).unwrap();
    assert_eq!(s.bonded, before);
    assert_eq!(s.total_bonded, before + 100);
}

#[test]
fn queries_are_idempotent_without_mutation() {
    let mut s = staked_pool(vec![entry("alpha", 100, Duration::Time(300))]);
    execute_unbond(&mut s, "agent", "7", 40, DENOM, &block(1_000)).unwrap();
    let q1 = QueryMsg::ValidatorInfo { address: "alpha".to_string() };
    assert_eq!(query(&s, &q1).unwrap(), query(&s, &q1).unwrap());
    let q2 = QueryMsg::TotalBonded {};
    assert_eq!(query(&s, &q2).unwrap(), query(&s, &q2).unwrap());
    let q3 = QueryMsg::Claims { nft_id: "7".to_string() };
    assert_eq!(query(&s, &q3).unwrap(), query(&s, &q3).unwrap());
    let q4 = QueryMsg::ContractClaimed {};
    assert_eq!(query(&s, &q4).unwrap(), query(&s, &q4).unwrap());
}

#[test]
fn queries_read_the_tracked_state() {
    let mut s = staked_pool(vec![entry("alpha", 100, Duration::Time(300))]);
    execute_unbond(&mut s, "agent", "7", 40, DENOM, &block(1_000)).unwrap();
    match query(&s, &QueryMsg::ValidatorInfo { address: "alpha".to_string() }).unwrap() {
        QueryAnswer::ValidatorInfo { info } => {
            assert_eq!(info.bonded, 60);
            assert_eq!(info.bond_denom, DENOM);
        },
        other => panic!("unexpected answer {:?}", other),
    }
    match query(&s, &QueryMsg::Claims { nft_id: "7".to_string() }).unwrap() {
        QueryAnswer::Claims { claims } => {
            assert_eq!(claims.len(), 1);
            assert_eq!(claims[0].amount, 40);
            assert_eq!(claims[0].release_at, Expiration::AtTime(1_300));
        },
        other => panic!("unexpected answer {:?}", other),
    }
    match query(&s, &QueryMsg::ContractBonded {}).unwrap() {
        QueryAnswer::Amount { amount } => assert_eq!(amount, 60),
        other => panic!("unexpected answer {:?}", other),
    }
    match query(&s, &QueryMsg::Agent {}).unwrap() {
        QueryAnswer::Address { address } => assert_eq!(address, "agent"),
        other => panic!("unexpected answer {:?}", other),
    }
    let r = query(&s, &QueryMsg::ValidatorInfo { address: "nobody".to_string() });
    assert_eq!(
        r.unwrap_err(),
        ContractError::NotRegisteredValidator { address: "nobody".to_string() }
    );
}

#[test]
fn unbond_with_height_periods_matures_by_height() {
    let mut s = staked_pool(vec![entry("alpha", 100, Duration::Height(50))]);
    execute_unbond(&mut s, "agent", "7", 40, DENOM, &block(1_000)).unwrap();
    assert_eq!(s.claims[0].release_at, Expiration::AtHeight(1_050));
    let balance = Coin { denom: DENOM.to_string(), amount: 1_000 };
    // height 1049: not yet mature
    let early = BlockInfo { height: 1_049, time: 9_999_999 };
    assert_eq!(
        execute_claim(&mut s, "agent", "7", "bob", &balance, &early).unwrap_err(),
        ContractError::NothingToClaim {}
    );
    let due = BlockInfo { height: 1_050, time: 0 };
    assert!(execute_claim(&mut s, "agent", "7", "bob", &balance, &due).is_ok());
}
