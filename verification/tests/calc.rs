use angel_staking::contract::calc_validator_number;

#[test]
fn calc_picks_largest_candidate_within_registry() {
    // candidates are 1, 2, 4, 5, 8, 10; the amount must exceed the pick
    assert_eq!(calc_validator_number(3, 60), 2);
    assert_eq!(calc_validator_number(4, 60), 4);
    assert_eq!(calc_validator_number(5, 60), 5);
    assert_eq!(calc_validator_number(8, 60), 8);
    assert_eq!(calc_validator_number(10, 60), 10);
    assert_eq!(calc_validator_number(200, 60), 10);
}

#[test]
fn calc_needs_at_least_one_unit_per_validator() {
    // ten validators available, but the amount caps the pick
    assert_eq!(calc_validator_number(10, 11), 10);
    assert_eq!(calc_validator_number(10, 10), 8);
    assert_eq!(calc_validator_number(10, 9), 8);
    assert_eq!(calc_validator_number(10, 8), 5);
    assert_eq!(calc_validator_number(10, 6), 5);
    assert_eq!(calc_validator_number(10, 5), 4);
    assert_eq!(calc_validator_number(10, 3), 2);
    assert_eq!(calc_validator_number(10, 2), 1);
    assert_eq!(calc_validator_number(10, 1), 1);
}

#[test]
fn calc_falls_back_to_one() {
    assert_eq!(calc_validator_number(1, 1_000_000), 1);
    assert_eq!(calc_validator_number(0, 1_000_000), 1);
    assert_eq!(calc_validator_number(1, 1), 1);
}

#[test]
fn calc_is_monotonic_in_registry_size() {
    let amount = 1_000u128;
    let mut prev = 0u64;
    let mut total: u64 = 0;
    while total <= 20 {
        let n = calc_validator_number(total, amount);
        assert!(n >= prev, "shrank from {} to {} at {}", prev, n, total);
        prev = n;
        total += 1;
    }
}
