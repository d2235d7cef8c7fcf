//! The pool's operations: bond and unbond allocation, claims, validator
//! lifecycle, the consistency audit, and the read-only queries.
//!
//! Every operation checks the caller's role first, then computes the new
//! state and the commands for the outside executor; a failed operation
//! leaves the state exactly as it was.

use vstd::prelude::*;

use crate::claims::{claims_of, release_kept, release_sum, spec_claims_of};
use crate::claims::{claim_tokens, create_claim, released_amount};
use crate::error::ContractError;
use crate::msg::{Coin, Command, InstantiateMsg, QueryAnswer, QueryMsg};
use crate::order::{str_bytes, str_bytes_eq};
use crate::registry::{registry_find, registry_insert, registry_remove, registry_update_bonded};
use crate::state::{addr_b, contains_addr, entry_at, entry_lt, registry_sorted, registry_unique,
    sum_bonded, sum_claims};
use crate::state::{claims_view, idx_of, lemma_entry_at_is, lemma_entry_bonded_le_sum,
    lemma_sum_bonded_nonneg, lemma_sum_claims_push};
use crate::state::{State, ValidatorEntry, ValidatorInfo};
use crate::time::{duration_fits, spec_after, BlockInfo, Duration, Expiration};

verus! {

/// A fresh pool configured with the given roles: no validators, no
/// claims, every counter zero.
pub fn instantiate(msg: InstantiateMsg) -> (s: State)
    ensures
        s.agent == msg.agent,
        s.manager == msg.manager,
        s.treasury == msg.treasury,
        s.bonded == 0,
        s.claimed == 0,
        s.total_bonded == 0,
        s.total_claimed == 0,
        s.validators@.len() == 0,
        s.claims@.len() == 0,
        s.wf(),
{
    State::new(msg.agent, msg.manager, msg.treasury)
}

/// Whether the caller is the configured agent.
pub open spec fn is_agent(state: State, sender: Seq<char>) -> bool {
    sender == state.agent@
}

/// Whether the caller is the configured manager.
pub open spec fn is_manager(state: State, sender: Seq<char>) -> bool {
    sender == state.manager@
}

/// The exclusion key of an optional excluded address.
pub open spec fn excl_bytes(e: Option<&str>) -> Option<Seq<u8>> {
    match e {
        Option::Some(x) => Option::Some(str_bytes(x@)),
        Option::None => Option::None,
    }
}

/// How many validators an unbond of `amount` is split across: the largest
/// candidate that the registry can cover and that leaves every selected
/// validator at least one unit, or one. The candidates are products of
/// two and five, so the split never repeats in decimal.
pub open spec fn spec_calc_validator_number(number_validators: u64, amount: u128) -> u64 {
    if 10 <= number_validators && amount > 10 {
        10
    } else if 8 <= number_validators && amount > 8 {
        8
    } else if 5 <= number_validators && amount > 5 {
        5
    } else if 4 <= number_validators && amount > 4 {
        4
    } else if 2 <= number_validators && amount > 2 {
        2
    } else {
        1
    }
}

/// How many validators to unbond from; see `spec_calc_validator_number`.
pub fn calc_validator_number(number_validators: u64, amount: u128) -> (n: u64)
    ensures
        n == spec_calc_validator_number(number_validators, amount),
        1 <= n <= 10,
{
    if 10 <= number_validators && amount > 10 {
        10
    } else if 8 <= number_validators && amount > 8 {
        8
    } else if 5 <= number_validators && amount > 5 {
        5
    } else if 4 <= number_validators && amount > 4 {
        4
    } else if 2 <= number_validators && amount > 2 {
        2
    } else {
        1
    }
}

/// Whether nothing is left to pick once the exclusion is applied.
pub open spec fn no_eligible_validator(s: Seq<ValidatorEntry>, exb: Option<Seq<u8>>) -> bool {
    s.len() == 0 || (s.len() == 1 && exb == Option::Some(addr_b(s[0])))
}

/// The validator with the least bonded amount (ties by address), skipping
/// the excluded address if one is given; the deposit target.
pub fn chosen_validator(state: &State, excluded_address: Option<&str>) -> (r: Result<
    String,
    ContractError,
>)
    requires
        state.wf(),
    ensures
        r is Err <==> no_eligible_validator(state.validators@, excl_bytes(excluded_address)),
        r is Err ==> r == Err::<String, ContractError>(ContractError::NoEligibleValidator {}),
        r matches Ok(a) ==> {
            let s = state.validators@;
            let ab = str_bytes(a@);
            &&& contains_addr(s, ab)
            &&& excl_bytes(excluded_address) != Option::Some(ab)
            &&& forall|j: int|
                0 <= j < s.len() && excl_bytes(excluded_address) != Option::Some(
                    #[trigger] addr_b(s[j]),
                ) && addr_b(s[j]) != ab ==> entry_lt(entry_at(s, ab), s[j])
        },
{
    let ghost s = state.validators@;
    if state.validators.len() == 0 {
        return Err(ContractError::NoEligibleValidator {});
    }
    let skip_first = match excluded_address {
        Option::Some(x) => str_bytes_eq(state.validators[0].address.as_str(), x),
        Option::None => false,
    };
    if !skip_first {
        let a = state.validators[0].address.clone();
        proof {
            lemma_entry_at_is(s, 0);
            assert(str_bytes(a@) == addr_b(s[0]));
            assert(entry_at(s, str_bytes(a@)) == s[0]);
            assert forall|j: int|
                0 <= j < s.len() && excl_bytes(excluded_address) != Option::Some(
                    #[trigger] addr_b(s[j]),
                ) && addr_b(s[j]) != str_bytes(a@) implies entry_lt(
                entry_at(s, str_bytes(a@)),
                s[j],
            ) by {
                assert(j != 0);
                assert(entry_lt(s[0], s[j]));
            }
        }
        Ok(a)
    } else if state.validators.len() == 1 {
        Err(ContractError::NoEligibleValidator {})
    } else {
        let a = state.validators[1].address.clone();
        proof {
            lemma_entry_at_is(s, 1);
            assert(str_bytes(a@) == addr_b(s[1]));
            assert(entry_at(s, str_bytes(a@)) == s[1]);
            assert(excl_bytes(excluded_address) == Option::Some(addr_b(s[0])));
            assert forall|j: int|
                0 <= j < s.len() && excl_bytes(excluded_address) != Option::Some(
                    #[trigger] addr_b(s[j]),
                ) && addr_b(s[j]) != str_bytes(a@) implies entry_lt(
                entry_at(s, str_bytes(a@)),
                s[j],
            ) by {
                assert(j != 0 && j != 1);
                assert(entry_lt(s[1], s[j]));
            }
        }
        Ok(a)
    }
}

/// The amounts delegated per coin, by scan position; `Err` is the position
/// of the first coin whose denomination differs from the first coin's.
pub open spec fn bonded_scan(s: Seq<Coin>, db: Seq<u8>, i: int) -> Result<int, int>
    decreases s.len() - i,
{
    if i < 0 || i >= s.len() {
        Result::Ok(0)
    } else if str_bytes(s[i].denom@) != db {
        Result::Err(i)
    } else {
        match bonded_scan(s, db, i + 1) {
            Result::Ok(t) => Result::Ok(t + s[i].amount),
            Result::Err(j) => Result::Err(j),
        }
    }
}

/// The total delegated, requiring one uniform denomination.
pub open spec fn spec_all_bonded(s: Seq<Coin>) -> Result<int, int> {
    if s.len() == 0 {
        Result::Ok(0)
    } else {
        bonded_scan(s, str_bytes(s[0].denom@), 0)
    }
}

/// Sum of the amounts of a list of coins.
pub open spec fn sum_coins(s: Seq<Coin>, i: int) -> int
    decreases s.len() - i,
{
    if i < 0 || i >= s.len() {
        0
    } else {
        s[i].amount + sum_coins(s, i + 1)
    }
}

proof fn lemma_sum_coins_nonneg(s: Seq<Coin>, i: int)
    ensures
        sum_coins(s, i) >= 0,
    decreases s.len() - i,
{
    if 0 <= i < s.len() {
        lemma_sum_coins_nonneg(s, i + 1);
    }
}

proof fn lemma_bonded_scan_bounds(s: Seq<Coin>, db: Seq<u8>, i: int)
    ensures
        bonded_scan(s, db, i) matches Result::Ok(t) ==> 0 <= t <= sum_coins(s, i),
    decreases s.len() - i,
{
    if 0 <= i < s.len() {
        lemma_bonded_scan_bounds(s, db, i + 1);
        lemma_sum_coins_nonneg(s, i + 1);
    }
}

/// The total amount this pool has delegated, over the externally observed
/// delegations; they must all be of one denomination.
pub fn get_all_bonded(delegations: &Vec<Coin>) -> (r: Result<u128, ContractError>)
    requires
        sum_coins(delegations@, 0) <= u128::MAX,
    ensures
        match spec_all_bonded(delegations@) {
            Result::Ok(t) => r == Result::Ok::<u128, ContractError>(t as u128),
            Result::Err(j) => r matches Result::Err(ContractError::DifferentBondDenom {
                denom1,
                denom2,
            }) && denom1@ == delegations@[0].denom@ && denom2@ == delegations@[j].denom@,
        },
{
    let ghost s = delegations@;
    if delegations.len() == 0 {
        return Ok(0);
    }
    let first = &delegations[0];
    let ghost db = str_bytes(first.denom@);
    let mut acc: u128 = 0;
    let mut i: usize = 0;
    while i < delegations.len()
        invariant
            s == delegations@,
            s.len() > 0,
            *first == s[0],
            db == str_bytes(s[0].denom@),
            sum_coins(s, 0) <= u128::MAX,
            0 <= i <= s.len(),
            acc + sum_coins(s, i as int) == sum_coins(s, 0),
            forall|j: int| 0 <= j < i ==> str_bytes(#[trigger] s[j].denom@) == db,
            bonded_scan(s, db, 0) == (match bonded_scan(s, db, i as int) {
                Result::Ok(t) => Result::Ok::<int, int>(t + acc),
                Result::Err(j) => Result::Err::<int, int>(j),
            }),
        decreases s.len() - i,
    {
        let c = &delegations[i];
        proof {
            assert(*c == s[i as int]);
            assert(*first == s[0]);
        }
        if !str_bytes_eq(c.denom.as_str(), first.denom.as_str()) {
            proof {
                assert(str_bytes(s[i as int].denom@) != db);
                assert(bonded_scan(s, db, i as int) == Result::Err::<int, int>(i as int));
                assert(spec_all_bonded(s) == Result::Err::<int, int>(i as int));
            }
            return Err(ContractError::DifferentBondDenom {
                denom1: first.denom.clone(),
                denom2: c.denom.clone(),
            });
        }
        proof {
            lemma_sum_coins_nonneg(s, i as int + 1);
            assert(str_bytes(s[i as int].denom@) == db);
        }
        acc = acc + c.amount;
        i += 1;
    }
    proof {
        assert(bonded_scan(s, db, s.len() as int) == Result::Ok::<int, int>(0));
        assert(bonded_scan(s, db, 0) == Result::Ok::<int, int>(acc as int));
    }
    Ok(acc)
}

/// Read-only audit: the chain-observed delegations must sum, in one
/// denomination, to exactly the tracked bonded counter.
pub fn execute_bond_check(state: &State, sender: &str, delegations: &Vec<Coin>) -> (r: Result<
    (),
    ContractError,
>)
    requires
        sum_coins(delegations@, 0) <= u128::MAX,
    ensures
        !is_manager(*state, sender@) ==> r == Result::Err::<(), ContractError>(
            ContractError::Unauthorized {},
        ),
        is_manager(*state, sender@) ==> match spec_all_bonded(delegations@) {
            Result::Ok(t) => if t == state.bonded as int {
                r is Ok
            } else {
                r == Result::Err::<(), ContractError>(ContractError::BondedDiffer {
                    total_bonded: t as u128,
                    state_total_bonded: state.bonded,
                })
            },
            Result::Err(j) => r matches Result::Err(ContractError::DifferentBondDenom {
                denom1,
                denom2,
            }) && denom1@ == delegations@[0].denom@ && denom2@ == delegations@[j].denom@,
        },
{
    if !str_bytes_eq(sender, state.manager.as_str()) {
        return Err(ContractError::Unauthorized {});
    }
    proof {
        if delegations@.len() > 0 {
            lemma_bonded_scan_bounds(delegations@, str_bytes(delegations@[0].denom@), 0);
        }
    }
    let total_bonded = match get_all_bonded(delegations) {
        Ok(t) => t,
        Err(e) => {
            return Err(e);
        },
    };
    if total_bonded != state.bonded {
        return Err(ContractError::BondedDiffer {
            total_bonded,
            state_total_bonded: state.bonded,
        });
    }
    Ok(())
}

/// The reward-withdrawal targets, in descending bonded order: every
/// validator with nonzero stake.
pub open spec fn rewards_targets(s: Seq<ValidatorEntry>) -> Seq<Seq<u8>>
    decreases s.len(),
{
    if s.len() == 0 {
        Seq::empty()
    } else if s.last().info.bonded > 0 {
        seq![addr_b(s.last())] + rewards_targets(s.drop_last())
    } else {
        rewards_targets(s.drop_last())
    }
}

/// The validator addresses named by a list of reward-withdraw commands.
pub open spec fn cmd_targets(cs: Seq<Command>) -> Seq<Seq<u8>> {
    Seq::new(
        cs.len(),
        |k: int|
            match cs[k] {
                Command::WithdrawReward { validator } => str_bytes(validator@),
                _ => Seq::empty(),
            },
    )
}

/// Emit one reward-withdraw command per validator with nonzero stake, in
/// descending bonded order.
pub fn execute_collect_rewards(state: &State, sender: &str) -> (r: Result<
    Vec<Command>,
    ContractError,
>)
    ensures
        !is_manager(*state, sender@) ==> r == Result::Err::<Vec<Command>, ContractError>(
            ContractError::Unauthorized {},
        ),
        is_manager(*state, sender@) ==> (r matches Ok(cmds) && cmd_targets(cmds@)
            == rewards_targets(state.validators@) && (forall|k: int|
            0 <= k < cmds@.len() ==> #[trigger] cmds@[k] is WithdrawReward)),
{
    if !str_bytes_eq(sender, state.manager.as_str()) {
        return Err(ContractError::Unauthorized {});
    }
    let ghost s = state.validators@;
    let mut cmds: Vec<Command> = Vec::new();
    let mut j: usize = state.validators.len();
    proof {
        assert(s.take(s.len() as int) =~= s);
        assert(cmd_targets(cmds@) + rewards_targets(s) =~= rewards_targets(s));
    }
    while j > 0
        invariant
            s == state.validators@,
            0 <= j <= s.len(),
            forall|k: int| 0 <= k < cmds@.len() ==> #[trigger] cmds@[k] is WithdrawReward,
            cmd_targets(cmds@) + rewards_targets(s.take(j as int)) == rewards_targets(s),
        decreases j,
    {
        let ghost pre = s.take(j as int);
        proof {
            assert(pre.last() == s[j as int - 1]);
            assert(pre.drop_last() =~= s.take(j as int - 1));
        }
        let e = &state.validators[j - 1];
        if e.info.bonded > 0 {
            let ghost c0 = cmds@;
            cmds.push(Command::WithdrawReward { validator: e.address.clone() });
            proof {
                assert(cmd_targets(cmds@) =~= cmd_targets(c0).push(addr_b(s[j as int - 1])));
                assert(cmd_targets(c0).push(addr_b(s[j as int - 1])) + rewards_targets(
                    s.take(j as int - 1),
                ) =~= cmd_targets(c0) + (seq![addr_b(s[j as int - 1])] + rewards_targets(
                    s.take(j as int - 1),
                )));
            }
        }
        j -= 1;
    }
    proof {
        assert(s.take(0) =~= Seq::<ValidatorEntry>::empty());
        assert(cmd_targets(cmds@) + rewards_targets(s.take(0)) =~= cmd_targets(cmds@));
    }
    Ok(cmds)
}

/// Transfer the pool's whole free balance to the treasury.
pub fn execute_transfer_balance(state: &State, sender: &str, balance: &Coin) -> (r: Result<
    Vec<Command>,
    ContractError,
>)
    ensures
        !is_manager(*state, sender@) ==> r == Result::Err::<Vec<Command>, ContractError>(
            ContractError::Unauthorized {},
        ),
        is_manager(*state, sender@) && balance.amount == 0 ==> r == Result::Err::<
            Vec<Command>,
            ContractError,
        >(ContractError::NothingToTransfer {}),
        is_manager(*state, sender@) && balance.amount > 0 ==> (r matches Ok(cmds)
            && cmds@.len() == 1 && (cmds@[0] matches Command::Send { to_address, amount }
            && to_address@ == state.treasury@ && amount.denom@ == balance.denom@
            && amount.amount == balance.amount)),
{
    if !str_bytes_eq(sender, state.manager.as_str()) {
        return Err(ContractError::Unauthorized {});
    }
    if balance.amount == 0 {
        return Err(ContractError::NothingToTransfer {});
    }
    let mut cmds: Vec<Command> = Vec::new();
    cmds.push(
        Command::Send {
            to_address: state.treasury.clone(),
            amount: Coin { denom: balance.denom.clone(), amount: balance.amount },
        },
    );
    Ok(cmds)
}

/// The chain-observed amount bonded on one validator: the delegation's
/// amount, or zero where there is none.
pub fn query_bonded_on_validator(delegation: &Option<Coin>) -> (r: u128)
    ensures
        r == (match delegation {
            Option::Some(c) => c.amount,
            Option::None => 0u128,
        }),
{
    match delegation {
        Option::Some(c) => c.amount,
        Option::None => 0,
    }
}

/// The balanced split: scanning descending by bonded amount, the first
/// `limit` validators whose bonded amount strictly exceeds the split and
/// whose denomination matches; their address keys in scan order.
pub open spec fn plan_a(s: Seq<ValidatorEntry>, split: int, db: Seq<u8>, limit: int) -> Seq<
    Seq<u8>,
>
    decreases s.len(),
{
    if s.len() == 0 || limit <= 0 {
        Seq::empty()
    } else if s.last().info.bonded > split && str_bytes(s.last().info.bond_denom@) == db {
        seq![addr_b(s.last())] + plan_a(s.drop_last(), split, db, limit - 1)
    } else {
        plan_a(s.drop_last(), split, db, limit)
    }
}

/// The greedy drain: scanning descending by bonded amount, take each
/// validator's whole bonded amount while it is less than what remains,
/// then exactly the remainder from the next; `None` when the registry
/// runs out first.
pub open spec fn plan_b(s: Seq<ValidatorEntry>, rem: int) -> Option<Seq<(Seq<u8>, int)>>
    decreases s.len(),
{
    if rem <= 0 {
        Option::Some(Seq::empty())
    } else if s.len() == 0 {
        Option::None
    } else if s.last().info.bonded < rem {
        match plan_b(s.drop_last(), rem - s.last().info.bonded) {
            Option::Some(rest) => Option::Some(
                seq![(addr_b(s.last()), s.last().info.bonded as int)] + rest,
            ),
            Option::None => Option::None,
        }
    } else {
        Option::Some(seq![(addr_b(s.last()), rem)])
    }
}

/// The same amount assigned to each of a list of addresses.
pub open spec fn with_amount(pa: Seq<Seq<u8>>, amt: int) -> Seq<(Seq<u8>, int)>
    decreases pa.len(),
{
    if pa.len() == 0 {
        Seq::empty()
    } else {
        seq![(pa[0], amt)] + with_amount(pa.drop_first(), amt)
    }
}

/// The observable content of an allocation: address key and amount per
/// entry, in order.
pub open spec fn alloc_view(r: Seq<(String, Coin)>) -> Seq<(Seq<u8>, int)> {
    Seq::new(r.len(), |k: int| (str_bytes(r[k].0@), r[k].1.amount as int))
}

/// The addresses of an allocation, in order.
pub open spec fn addrs_of(r: Seq<(String, Coin)>) -> Seq<Seq<u8>> {
    Seq::new(r.len(), |k: int| str_bytes(r[k].0@))
}

/// The total amount an allocation assigns.
pub open spec fn alloc_sum(a: Seq<(Seq<u8>, int)>) -> int
    decreases a.len(),
{
    if a.len() == 0 {
        0
    } else {
        a[0].1 + alloc_sum(a.drop_first())
    }
}

/// Prepend a finished prefix to a plan outcome.
pub open spec fn opt_cat(a: Seq<(Seq<u8>, int)>, o: Option<Seq<(Seq<u8>, int)>>) -> Option<
    Seq<(Seq<u8>, int)>,
> {
    match o {
        Option::Some(r) => Option::Some(a + r),
        Option::None => Option::None,
    }
}

/// The whole unbond allocation decision: the balanced split where exactly
/// the wanted number of validators qualifies and the split is exact,
/// otherwise the greedy drain; `None` where neither covers the amount
/// exactly.
pub open spec fn spec_unstake_allocation(
    s: Seq<ValidatorEntry>,
    amount: int,
    db: Seq<u8>,
    n: int,
) -> Option<Seq<(Seq<u8>, int)>> {
    let split = amount / n;
    let pa = plan_a(s, split, db, n);
    if pa.len() == n {
        if n * split == amount {
            Option::Some(with_amount(pa, split))
        } else {
            Option::None
        }
    } else {
        plan_b(s, amount)
    }
}

proof fn lemma_registry_drop_last(s: Seq<ValidatorEntry>)
    requires
        registry_sorted(s),
        registry_unique(s),
        s.len() > 0,
    ensures
        registry_sorted(s.drop_last()),
        registry_unique(s.drop_last()),
{
    assert(forall|i: int| 0 <= i < s.len() - 1 ==> s.drop_last()[i] == s[i]);
}

proof fn lemma_entry_at_drop_last(s: Seq<ValidatorEntry>, ab: Seq<u8>)
    requires
        registry_unique(s),
        s.len() > 0,
        contains_addr(s.drop_last(), ab),
    ensures
        contains_addr(s, ab),
        entry_at(s, ab) == entry_at(s.drop_last(), ab),
        ab != addr_b(s.last()),
{
    let t = s.drop_last();
    let i = idx_of(t, ab);
    assert(0 <= i < t.len() && addr_b(t[i]) == ab);
    assert(t[i] == s[i]);
    lemma_entry_at_is(s, i);
}

proof fn lemma_sum_bonded_all_zero(s: Seq<ValidatorEntry>)
    requires
        forall|i: int| 0 <= i < s.len() ==> #[trigger] s[i].info.bonded == 0,
    ensures
        sum_bonded(s) == 0,
    decreases s.len(),
{
    if s.len() > 0 {
        assert(forall|i: int|
            0 <= i < s.drop_first().len() ==> #[trigger] s.drop_first()[i].info.bonded == 0);
        lemma_sum_bonded_all_zero(s.drop_first());
    }
}

proof fn lemma_with_amount_index(pa: Seq<Seq<u8>>, amt: int)
    ensures
        with_amount(pa, amt).len() == pa.len(),
        forall|k: int|
            0 <= k < pa.len() ==> #[trigger] with_amount(pa, amt)[k] == (pa[k], amt),
    decreases pa.len(),
{
    if pa.len() > 0 {
        lemma_with_amount_index(pa.drop_first(), amt);
        assert(forall|k: int|
            1 <= k < pa.len() ==> #[trigger] with_amount(pa, amt)[k] == with_amount(
                pa.drop_first(),
                amt,
            )[k - 1]);
        assert(forall|k: int| 1 <= k < pa.len() ==> pa.drop_first()[k - 1] == pa[k]);
    }
}

proof fn lemma_with_amount_sum(pa: Seq<Seq<u8>>, amt: int)
    ensures
        alloc_sum(with_amount(pa, amt)) == pa.len() * amt,
    decreases pa.len(),
{
    if pa.len() == 0 {
    } else {
        lemma_with_amount_sum(pa.drop_first(), amt);
        let w = with_amount(pa, amt);
        assert(w[0] == (pa[0], amt));
        assert(w.drop_first() =~= with_amount(pa.drop_first(), amt));
        assert((pa.len() - 1) * amt + amt == pa.len() * amt) by (nonlinear_arith);
    }
}

proof fn lemma_alloc_sum_nonneg(a: Seq<(Seq<u8>, int)>)
    requires
        forall|k: int| 0 <= k < a.len() ==> (#[trigger] a[k]).1 >= 0,
    ensures
        alloc_sum(a) >= 0,
    decreases a.len(),
{
    if a.len() > 0 {
        assert(forall|k: int|
            0 <= k < a.drop_first().len() ==> (#[trigger] a.drop_first()[k]).1 >= 0);
        lemma_alloc_sum_nonneg(a.drop_first());
    }
}

/// What the balanced split selects: validators of the registry, each with
/// more bonded than the split and the right denomination, no validator
/// twice, and at most `limit` of them.
proof fn lemma_plan_a_props(s: Seq<ValidatorEntry>, split: int, db: Seq<u8>, limit: int)
    requires
        registry_sorted(s),
        registry_unique(s),
    ensures
        ({
            let pa = plan_a(s, split, db, limit);
            &&& limit >= 0 ==> pa.len() <= limit
            &&& forall|k: int|
                0 <= k < pa.len() ==> contains_addr(s, #[trigger] pa[k]) && entry_at(
                    s,
                    pa[k],
                ).info.bonded > split && str_bytes(entry_at(s, pa[k]).info.bond_denom@) == db
            &&& forall|k: int, l: int|
                #![trigger pa[k], pa[l]]
                0 <= k < l < pa.len() ==> pa[k] != pa[l]
        }),
    decreases s.len(),
{
    let pa = plan_a(s, split, db, limit);
    if s.len() == 0 || limit <= 0 {
    } else {
        let t = s.drop_last();
        lemma_registry_drop_last(s);
        let last = s.last();
        if last.info.bonded > split && str_bytes(last.info.bond_denom@) == db {
            lemma_plan_a_props(t, split, db, limit - 1);
            let pr = plan_a(t, split, db, limit - 1);
            assert(pa == seq![addr_b(last)] + pr);
            assert(pa[0] == addr_b(last));
            assert(forall|k: int| 1 <= k < pa.len() ==> pa[k] == pr[k - 1]);
            lemma_entry_at_is(s, s.len() - 1);
            assert forall|k: int| 0 <= k < pa.len() implies contains_addr(s, #[trigger] pa[k])
                && entry_at(s, pa[k]).info.bonded > split && str_bytes(
                entry_at(s, pa[k]).info.bond_denom@,
            ) == db by {
                if k > 0 {
                    lemma_entry_at_drop_last(s, pr[k - 1]);
                }
            }
            assert forall|k: int, l: int|
                #![trigger pa[k], pa[l]]
                0 <= k < l < pa.len() implies pa[k] != pa[l] by {
                if k == 0 {
                    lemma_entry_at_drop_last(s, pr[l - 1]);
                }
            }
        } else {
            lemma_plan_a_props(t, split, db, limit);
            assert(pa == plan_a(t, split, db, limit));
            assert forall|k: int| 0 <= k < pa.len() implies contains_addr(s, #[trigger] pa[k])
                && entry_at(s, pa[k]).info.bonded > split && str_bytes(
                entry_at(s, pa[k]).info.bond_denom@,
            ) == db by {
                lemma_entry_at_drop_last(s, pa[k]);
            }
        }
    }
}

/// What the greedy drain does: it succeeds exactly when the registry's
/// whole bonded sum covers the remainder; on success the assigned
/// amounts are positive, add up exactly, stay within each validator's
/// bonded amount, and name no validator twice.
proof fn lemma_plan_b_props(s: Seq<ValidatorEntry>, rem: int)
    requires
        registry_sorted(s),
        registry_unique(s),
        rem > 0,
    ensures
        (plan_b(s, rem) is Some) <==> sum_bonded(s) >= rem,
        ({
            let r = plan_b(s, rem);
            r matches Option::Some(a) ==> {
                &&& alloc_sum(a) == rem
                &&& forall|k: int|
                    0 <= k < a.len() ==> contains_addr(s, (#[trigger] a[k]).0) && 0 < a[k].1
                        <= entry_at(s, a[k].0).info.bonded
                &&& forall|k: int, l: int|
                    #![trigger a[k], a[l]]
                    0 <= k < l < a.len() ==> a[k].0 != a[l].0
            }
        }),
    decreases s.len(),
{
    crate::state::lemma_sum_bonded_nonneg(s);
    if s.len() == 0 {
    } else {
        let t = s.drop_last();
        let last = s.last();
        lemma_registry_drop_last(s);
        assert(forall|i: int| 0 <= i < t.len() ==> t[i] == s[i]);
        crate::state::lemma_sum_bonded_nonneg(t);
        crate::state::lemma_sum_bonded_remove(s, s.len() - 1);
        assert(s.remove(s.len() - 1) =~= t);
        assert(sum_bonded(s) == sum_bonded(t) + last.info.bonded);
        lemma_entry_at_is(s, s.len() - 1);
        if last.info.bonded < rem {
            lemma_plan_b_props(t, rem - last.info.bonded);
            match plan_b(t, rem - last.info.bonded) {
                Option::Some(pr) => {
                    let a = seq![(addr_b(last), last.info.bonded as int)] + pr;
                    assert(plan_b(s, rem) == Option::Some(a));
                    assert(a[0] == (addr_b(last), last.info.bonded as int));
                    assert(forall|k: int| 1 <= k < a.len() ==> a[k] == pr[k - 1]);
                    assert(a.drop_first() =~= pr);
                    // a zero-bonded head would leave nothing below it
                    assert(last.info.bonded > 0) by {
                        if last.info.bonded == 0 {
                            assert(forall|i: int|
                                0 <= i < t.len() ==> #[trigger] t[i].info.bonded == 0) by {
                                assert(forall|i: int|
                                    0 <= i < s.len() - 1 ==> entry_lt(
                                        #[trigger] s[i],
                                        s[s.len() - 1],
                                    ));
                            }
                            lemma_sum_bonded_all_zero(t);
                        }
                    }
                    assert forall|k: int| 0 <= k < a.len() implies contains_addr(
                        s,
                        (#[trigger] a[k]).0,
                    ) && 0 < a[k].1 <= entry_at(s, a[k].0).info.bonded by {
                        if k > 0 {
                            lemma_entry_at_drop_last(s, pr[k - 1].0);
                        }
                    }
                    assert forall|k: int, l: int|
                        #![trigger a[k], a[l]]
                        0 <= k < l < a.len() implies a[k].0 != a[l].0 by {
                        if k == 0 {
                            lemma_entry_at_drop_last(s, pr[l - 1].0);
                        }
                    }
                },
                Option::None => {
                },
            }
        } else {
            let a = seq![(addr_b(last), rem)];
            assert(plan_b(s, rem) == Option::Some(a));
            assert(a.len() == 1 && a[0] == (addr_b(last), rem));
            assert(a.drop_first() =~= Seq::<(Seq<u8>, int)>::empty());
            assert(alloc_sum(Seq::<(Seq<u8>, int)>::empty()) == 0);
            assert(alloc_sum(a) == rem);
        }
    }
}

/// What the whole allocation decision guarantees when it succeeds: the
/// amounts are positive, stay within each selected validator's bonded
/// amount, name no validator twice, and add up exactly to the request.
pub proof fn lemma_allocation_props(s: Seq<ValidatorEntry>, amount: int, db: Seq<u8>, n: int)
    requires
        registry_sorted(s),
        registry_unique(s),
        amount > 0,
        n >= 1,
    ensures
        ({
            let r = spec_unstake_allocation(s, amount, db, n);
            r matches Option::Some(a) ==> {
                &&& alloc_sum(a) == amount
                &&& forall|k: int|
                    0 <= k < a.len() ==> contains_addr(s, (#[trigger] a[k]).0) && 0 < a[k].1
                        <= entry_at(s, a[k].0).info.bonded
                &&& forall|k: int, l: int|
                    #![trigger a[k], a[l]]
                    0 <= k < l < a.len() ==> a[k].0 != a[l].0
            }
        }),
{
    let split = amount / n;
    let pa = plan_a(s, split, db, n);
    lemma_plan_a_props(s, split, db, n);
    if pa.len() == n {
        if n * split == amount {
            let a = with_amount(pa, split);
            lemma_with_amount_index(pa, split);
            lemma_with_amount_sum(pa, split);
            assert(split > 0) by (nonlinear_arith)
                requires
                    n >= 1,
                    n * split == amount,
                    amount > 0,
                    split >= 0,
            ;
            assert(split >= 0) by {
                vstd::arithmetic::div_mod::lemma_div_pos_is_pos(amount, n);
            }
            assert forall|k: int| 0 <= k < a.len() implies contains_addr(
                s,
                (#[trigger] a[k]).0,
            ) && 0 < a[k].1 <= entry_at(s, a[k].0).info.bonded by {
                assert(a[k] == (pa[k], split));
            }
            assert forall|k: int, l: int|
                #![trigger a[k], a[l]]
                0 <= k < l < a.len() implies a[k].0 != a[l].0 by {
                assert(a[k] == (pa[k], split) && a[l] == (pa[l], split));
            }
        }
    } else {
        lemma_plan_b_props(s, amount);
    }
}

proof fn lemma_alloc_sum_push(a: Seq<(Seq<u8>, int)>, x: (Seq<u8>, int))
    ensures
        alloc_sum(a.push(x)) == alloc_sum(a) + x.1,
    decreases a.len(),
{
    if a.len() == 0 {
        assert(a.push(x)[0] == x);
        assert(a.push(x).drop_first() =~= a);
    } else {
        assert(a.push(x)[0] == a[0]);
        assert(a.push(x).drop_first() =~= a.drop_first().push(x));
        lemma_alloc_sum_push(a.drop_first(), x);
    }
}

/// The exact total an allocation assigns.
fn alloc_total(v: &Vec<(String, Coin)>) -> (t: u128)
    requires
        alloc_sum(alloc_view(v@)) <= u128::MAX,
    ensures
        t == alloc_sum(alloc_view(v@)),
{
    let ghost av = alloc_view(v@);
    proof {
        assert(av.skip(0) =~= av);
    }
    let mut t: u128 = 0;
    let mut i: usize = 0;
    while i < v.len()
        invariant
            av == alloc_view(v@),
            alloc_sum(av) <= u128::MAX,
            0 <= i <= av.len(),
            t + alloc_sum(av.skip(i as int)) == alloc_sum(av),
        decreases av.len() - i,
    {
        proof {
            let rest = av.skip(i as int);
            assert(rest[0] == av[i as int]);
            assert(rest.drop_first() =~= av.skip(i as int + 1));
            assert(forall|k: int|
                0 <= k < av.skip(i as int + 1).len() ==> (#[trigger] av.skip(
                    i as int + 1,
                )[k]).1 >= 0);
            lemma_alloc_sum_nonneg(av.skip(i as int + 1));
        }
        t = t + v[i].1.amount;
        i += 1;
    }
    proof {
        assert(av.skip(av.len() as int).len() == 0);
    }
    t
}

/// The unstake allocation: which validators to unbond from and how much
/// from each — the balanced split where exactly the wanted number
/// qualifies, else the greedy drain — with the exact-sum check that
/// fails closed on any mismatch.
#[verifier::rlimit(60)]
pub fn chosen_validators_unstake(
    state: &State,
    amount: u128,
    denom: &str,
    number_validators: u64,
) -> (r: Result<Vec<(String, Coin)>, ContractError>)
    requires
        state.wf(),
        amount > 0,
        1 <= number_validators <= 10,
    ensures
        ({
            let s = state.validators@;
            let db = str_bytes(denom@);
            let n = number_validators as int;
            let pa = plan_a(s, amount as int / n, db, n);
            &&& match spec_unstake_allocation(s, amount as int, db, n) {
                Option::Some(a) => r matches Ok(v) && alloc_view(v@) == a && (forall|k: int|
                    0 <= k < v@.len() ==> (#[trigger] v@[k]).1.denom@ == denom@),
                Option::None => r is Err,
            }
            &&& r is Err ==> (r matches Err(ContractError::UnableUnstakeAmount {
                amount: am,
                number_validators: nv,
            }) && am == amount && nv == (if pa.len() == n {
                number_validators
            } else {
                s.len() as u64
            }))
        }),
{
    let ghost s = state.validators@;
    let ghost db = str_bytes(denom@);
    let ghost n = number_validators as int;
    let limit: usize = number_validators as usize;
    let split: u128 = amount / (number_validators as u128);
    proof {
        assert(split as int == amount as int / n);
        vstd::arithmetic::div_mod::lemma_fundamental_div_mod(amount as int, n);
        vstd::arithmetic::div_mod::lemma_mod_bound(amount as int, n);
        assert(n * (split as int) <= amount as int);
    }

    // balanced split: scan descending, collect up to `limit` qualifying
    let mut pa_vec: Vec<(String, Coin)> = Vec::new();
    let mut j: usize = state.validators.len();
    proof {
        assert(s.take(s.len() as int) =~= s);
        assert(addrs_of(pa_vec@) =~= Seq::<Seq<u8>>::empty());
        assert(addrs_of(pa_vec@) + plan_a(s, split as int, db, n) =~= plan_a(
            s,
            split as int,
            db,
            n,
        ));
    }
    while j > 0 && pa_vec.len() < limit
        invariant
            s == state.validators@,
            db == str_bytes(denom@),
            n == number_validators as int,
            1 <= n <= 10,
            limit == number_validators as usize,
            split as int == amount as int / n,
            0 <= j <= s.len(),
            pa_vec@.len() <= limit,
            plan_a(s, split as int, db, n) == addrs_of(pa_vec@) + plan_a(
                s.take(j as int),
                split as int,
                db,
                n - pa_vec@.len(),
            ),
            forall|k: int|
                0 <= k < pa_vec@.len() ==> (#[trigger] pa_vec@[k]).1.amount == split
                    && pa_vec@[k].1.denom@ == denom@,
        decreases j,
    {
        let ghost pre = s.take(j as int);
        proof {
            assert(pre.last() == s[j as int - 1]);
            assert(pre.drop_last() =~= s.take(j as int - 1));
        }
        let e = &state.validators[j - 1];
        let eligible = e.info.bonded > split && str_bytes_eq(e.info.bond_denom.as_str(), denom);
        if eligible {
            let ghost p0 = pa_vec@;
            pa_vec.push((e.address.clone(), Coin { denom: denom.to_owned(), amount: split }));
            proof {
                assert(addrs_of(pa_vec@) =~= addrs_of(p0).push(addr_b(s[j as int - 1])));
                assert(addrs_of(p0).push(addr_b(s[j as int - 1])) + plan_a(
                    s.take(j as int - 1),
                    split as int,
                    db,
                    n - pa_vec@.len(),
                ) =~= addrs_of(p0) + (seq![addr_b(s[j as int - 1])] + plan_a(
                    s.take(j as int - 1),
                    split as int,
                    db,
                    n - pa_vec@.len(),
                )));
            }
        }
        j -= 1;
    }
    let ghost full_pa = plan_a(s, split as int, db, n);

    if pa_vec.len() == limit {
        // the balanced split filled: use it as-is, if it is exact
        proof {
            assert(plan_a(s.take(j as int), split as int, db, 0) == Seq::<Seq<u8>>::empty());
            assert(full_pa =~= addrs_of(pa_vec@));
            lemma_with_amount_index(full_pa, split as int);
            assert(alloc_view(pa_vec@) =~= with_amount(full_pa, split as int));
            lemma_with_amount_sum(full_pa, split as int);
            vstd::arithmetic::div_mod::lemma_fundamental_div_mod(amount as int, n);
            vstd::arithmetic::div_mod::lemma_mod_bound(amount as int, n);
            assert(alloc_sum(alloc_view(pa_vec@)) == n * (split as int) <= amount as int);
        }
        let t = alloc_total(&pa_vec);
        if t != amount {
            return Err(ContractError::UnableUnstakeAmount { amount, number_validators });
        }
        return Ok(pa_vec);
    }

    // greedy drain: scan descending, take whole bonded amounts until the
    // remainder fits on one validator
    proof {
        assert(full_pa.len() < n) by {
            assert(plan_a(s.take(j as int), split as int, db, n - pa_vec@.len()).len() >= 0);
            if j == 0 {
                assert(s.take(0) =~= Seq::<ValidatorEntry>::empty());
                assert(plan_a(s.take(0), split as int, db, n - pa_vec@.len())
                    == Seq::<Seq<u8>>::empty());
            }
        }
    }
    let mut vec_b: Vec<(String, Coin)> = Vec::new();
    let mut remaining: u128 = amount;
    let mut j2: usize = state.validators.len();
    proof {
        assert(s.take(s.len() as int) =~= s);
        assert(alloc_view(vec_b@) =~= Seq::<(Seq<u8>, int)>::empty());
        if let Option::Some(rr) = plan_b(s, amount as int) {
            assert(alloc_view(vec_b@) + rr =~= rr);
        }
        assert(alloc_sum(alloc_view(vec_b@)) == 0);
    }
    while remaining > 0
        invariant
            s == state.validators@,
            db == str_bytes(denom@),
            n == number_validators as int,
            amount > 0,
            full_pa == plan_a(s, amount as int / n, db, n),
            full_pa.len() < n,
            0 <= j2 <= s.len(),
            remaining <= amount,
            alloc_sum(alloc_view(vec_b@)) + remaining == amount,
            opt_cat(alloc_view(vec_b@), plan_b(s.take(j2 as int), remaining as int)) == plan_b(
                s,
                amount as int,
            ),
            forall|k: int| 0 <= k < vec_b@.len() ==> (#[trigger] vec_b@[k]).1.denom@ == denom@,
        decreases j2, remaining,
    {
        if j2 == 0 {
            proof {
                assert(s.take(0) =~= Seq::<ValidatorEntry>::empty());
                assert(plan_b(s.take(0), remaining as int) is None);
            }
            return Err(ContractError::UnableUnstakeAmount {
                amount,
                number_validators: state.validators.len() as u64,
            });
        }
        let ghost pre = s.take(j2 as int);
        proof {
            assert(pre.last() == s[j2 as int - 1]);
            assert(pre.drop_last() =~= s.take(j2 as int - 1));
        }
        let e = &state.validators[j2 - 1];
        if e.info.bonded < remaining {
            let ghost v0 = vec_b@;
            let ghost x = (addr_b(s[j2 as int - 1]), s[j2 as int - 1].info.bonded as int);
            vec_b.push(
                (e.address.clone(), Coin { denom: denom.to_owned(), amount: e.info.bonded }),
            );
            remaining = remaining - e.info.bonded;
            proof {
                assert(alloc_view(vec_b@) =~= alloc_view(v0).push(x));
                lemma_alloc_sum_push(alloc_view(v0), x);
                if let Option::Some(rr) = plan_b(s.take(j2 as int - 1), remaining as int) {
                    assert(alloc_view(v0) + (seq![x] + rr) =~= alloc_view(vec_b@) + rr);
                }
            }
            j2 -= 1;
        } else {
            let ghost v0 = vec_b@;
            let ghost x = (addr_b(s[j2 as int - 1]), remaining as int);
            vec_b.push((e.address.clone(), Coin { denom: denom.to_owned(), amount: remaining }));
            proof {
                assert(plan_b(pre, remaining as int) == Option::Some(seq![x]));
                assert(alloc_view(vec_b@) =~= alloc_view(v0).push(x));
                lemma_alloc_sum_push(alloc_view(v0), x);
                assert(alloc_view(v0) + seq![x] =~= alloc_view(vec_b@));
                assert(plan_b(s, amount as int) == Option::Some(alloc_view(vec_b@)));
                assert(plan_b(s.take(j2 as int), 0) == Option::Some(
                    Seq::<(Seq<u8>, int)>::empty(),
                ));
                assert(alloc_view(vec_b@) + Seq::<(Seq<u8>, int)>::empty() =~= alloc_view(
                    vec_b@,
                ));
            }
            remaining = 0;
        }
    }
    proof {
        assert(plan_b(s.take(j2 as int), 0) == Option::Some(Seq::<(Seq<u8>, int)>::empty()));
        assert(alloc_view(vec_b@) + Seq::<(Seq<u8>, int)>::empty() =~= alloc_view(vec_b@));
        assert(plan_b(s, amount as int) == Option::Some(alloc_view(vec_b@)));
    }
    let t = alloc_total(&vec_b);
    if t != amount {
        return Err(ContractError::UnableUnstakeAmount { amount, number_validators });
    }
    Ok(vec_b)
}

/// What a single attached payment must be: exactly one coin, with a
/// positive amount.
pub open spec fn one_coin_ok(funds: Seq<Coin>) -> bool {
    funds.len() == 1 && funds[0].amount > 0
}

/// The payment error owed when the attached funds are not one positive
/// coin: nothing (or only a zero coin) attached, or several coins.
pub open spec fn one_coin_err(funds: Seq<Coin>) -> ContractError {
    if funds.len() > 1 {
        ContractError::MultipleDenoms {}
    } else {
        ContractError::NoFunds {}
    }
}

/// The one attached coin. Mirrors the host ledger's payment helper: no
/// coin or a zero amount is `NoFunds`, several coins are
/// `MultipleDenoms`.
fn one_coin(funds: &Vec<Coin>) -> (r: Result<Coin, ContractError>)
    ensures
        r is Ok <==> one_coin_ok(funds@),
        r matches Ok(c) ==> c.denom@ == funds@[0].denom@ && c.amount == funds@[0].amount,
        r is Err ==> r == Result::Err::<Coin, ContractError>(one_coin_err(funds@)),
{
    if funds.len() == 0 {
        Err(ContractError::NoFunds {})
    } else if funds.len() == 1 {
        let c = &funds[0];
        if c.amount == 0 {
            Err(ContractError::NoFunds {})
        } else {
            Ok(Coin { denom: c.denom.clone(), amount: c.amount })
        }
    } else {
        Err(ContractError::MultipleDenoms {})
    }
}

/// Whether the address list contains this address, by bytes.
pub open spec fn str_list_contains(s: Seq<String>, ab: Seq<u8>) -> bool {
    exists|i: int| 0 <= i < s.len() && str_bytes(#[trigger] s[i]@) == ab
}

/// Whether the address stands in the list.
fn list_contains(list: &Vec<String>, address: &str) -> (r: bool)
    ensures
        r == str_list_contains(list@, str_bytes(address@)),
{
    let mut i: usize = 0;
    while i < list.len()
        invariant
            0 <= i <= list@.len(),
            forall|j: int| 0 <= j < i ==> str_bytes(#[trigger] list@[j]@) != str_bytes(address@),
        decreases list@.len() - i,
    {
        if str_bytes_eq(list[i].as_str(), address) {
            proof {
                assert(str_bytes(list@[i as int]@) == str_bytes(address@));
            }
            return true;
        }
        i += 1;
    }
    false
}

/// Bond the attached payment: the whole amount goes to the least-loaded
/// registered validator, whose record and the aggregate counters grow by
/// it, and one delegate command is emitted.
pub fn execute_bond(
    state: &mut State,
    sender: &str,
    funds: &Vec<Coin>,
    _nft_id: u128,
) -> (r: Result<Vec<Command>, ContractError>)
    requires
        old(state).wf(),
        one_coin_ok(funds@) ==> old(state).bonded + funds@[0].amount <= u128::MAX
            && old(state).total_bonded + funds@[0].amount <= u128::MAX,
    ensures
        final(state).wf(),
        r is Err ==> *final(state) == *old(state),
        !is_agent(*old(state), sender@) ==> r == Result::Err::<Vec<Command>, ContractError>(
            ContractError::Unauthorized {},
        ),
        is_agent(*old(state), sender@) && !one_coin_ok(funds@) ==> r == Result::Err::<
            Vec<Command>,
            ContractError,
        >(one_coin_err(funds@)),
        is_agent(*old(state), sender@) && one_coin_ok(funds@) && old(state).validators@.len()
            == 0 ==> r == Result::Err::<Vec<Command>, ContractError>(
            ContractError::NoEligibleValidator {},
        ),
        is_agent(*old(state), sender@) && one_coin_ok(funds@) && old(state).validators@.len()
            > 0 ==> ({
            let os = old(state).validators@;
            let ab = addr_b(os[0]);
            let amt = funds@[0].amount;
            let ns = final(state).validators@;
            &&& r matches Ok(cmds)
            &&& ns.len() == os.len()
            &&& forall|ab2: Seq<u8>| #[trigger] contains_addr(ns, ab2) == contains_addr(os, ab2)
            &&& entry_at(ns, ab).info.bonded == os[0].info.bonded + amt
            &&& entry_at(ns, ab).address == os[0].address
            &&& entry_at(ns, ab).info.bond_denom == os[0].info.bond_denom
            &&& entry_at(ns, ab).info.unbonding_period == os[0].info.unbonding_period
            &&& entry_at(ns, ab).info.claimed == os[0].info.claimed
            &&& forall|ab2: Seq<u8>|
                #[trigger] contains_addr(os, ab2) && ab2 != ab ==> entry_at(ns, ab2)
                    == entry_at(os, ab2)
            &&& final(state).bonded == old(state).bonded + amt
            &&& final(state).total_bonded == old(state).total_bonded + amt
            &&& final(state).claimed == old(state).claimed
            &&& final(state).total_claimed == old(state).total_claimed
            &&& final(state).agent == old(state).agent
            &&& final(state).manager == old(state).manager
            &&& final(state).treasury == old(state).treasury
            &&& final(state).claims == old(state).claims
            &&& (r matches Ok(cmds) ==> cmds@.len() == 1 && (cmds@[0]
                matches Command::Delegate { validator, amount } && str_bytes(validator@) == ab
                && amount.denom@ == funds@[0].denom@ && amount.amount == amt))
        }),
{
    if !str_bytes_eq(sender, state.agent.as_str()) {
        return Err(ContractError::Unauthorized {});
    }
    let d_coins = match one_coin(funds) {
        Ok(c) => c,
        Err(e) => {
            return Err(e);
        },
    };
    let amount = d_coins.amount;

    let validator_address = match chosen_validator(state, Option::None) {
        Ok(a) => a,
        Err(e) => {
            return Err(e);
        },
    };
    let ghost os = state.validators@;
    let i = match registry_find(&state.validators, validator_address.as_str()) {
        Option::Some(i) => i,
        Option::None => {
            proof {
                assert(false);
            }
            return Err(ContractError::NoEligibleValidator {});
        },
    };
    proof {
        // the chosen target is the first entry of the ordering
        lemma_entry_at_is(os, i as int);
        lemma_entry_at_is(os, 0);
        if i != 0 {
            assert(entry_lt(os[0], os[i as int]));
            crate::state::lemma_entry_lt_asym(os[0], os[i as int]);
        }
        lemma_entry_bonded_le_sum(os, 0);
    }
    let e = &state.validators[i];
    let new_bonded = e.info.bonded + amount;
    registry_update_bonded(&mut state.validators, i, new_bonded);
    state.bonded = state.bonded + amount;
    state.total_bonded = state.total_bonded + amount;

    let mut cmds: Vec<Command> = Vec::new();
    cmds.push(
        Command::Delegate {
            validator: validator_address,
            amount: Coin { denom: d_coins.denom, amount },
        },
    );
    Ok(cmds)
}

/// Register a validator: it must stand in the externally recognized
/// active set, be new to the registry, and accept the pool's bonding
/// denomination; its record starts with nothing bonded.
pub fn execute_add_validator(
    state: &mut State,
    sender: &str,
    validator_address: String,
    bond_denom: String,
    unbonding_period: Duration,
    active_validators: &Vec<String>,
    can_be_bonded_denom: &str,
) -> (r: Result<Vec<Command>, ContractError>)
    requires
        old(state).wf(),
    ensures
        final(state).wf(),
        r is Err ==> *final(state) == *old(state),
        !is_manager(*old(state), sender@) ==> r == Result::Err::<Vec<Command>, ContractError>(
            ContractError::Unauthorized {},
        ),
        ({
            let os = old(state).validators@;
            let ab = str_bytes(validator_address@);
            let in_set = str_list_contains(active_validators@, ab);
            &&& is_manager(*old(state), sender@) && !in_set ==> (r matches Err(
                ContractError::NotInValidatorSet { validator },
            ) && validator@ == validator_address@)
            &&& is_manager(*old(state), sender@) && in_set && contains_addr(os, ab) ==> (r
                matches Err(ContractError::ValidatorAlreadyRegistered { validator })
                && validator@ == validator_address@)
            &&& is_manager(*old(state), sender@) && in_set && !contains_addr(os, ab)
                && str_bytes(bond_denom@) != str_bytes(can_be_bonded_denom@) ==> (r matches Err(
                ContractError::DenominationCanNotBeBonded { denom },
            ) && denom@ == bond_denom@)
            &&& is_manager(*old(state), sender@) && in_set && !contains_addr(os, ab)
                && str_bytes(bond_denom@) == str_bytes(can_be_bonded_denom@) ==> ({
                let ns = final(state).validators@;
                &&& r matches Ok(cmds) && cmds@.len() == 0
                &&& ns.len() == os.len() + 1
                &&& forall|ab2: Seq<u8>|
                    #[trigger] contains_addr(ns, ab2) == (contains_addr(os, ab2) || ab2 == ab)
                &&& entry_at(ns, ab).address == validator_address
                &&& entry_at(ns, ab).info.bond_denom == bond_denom
                &&& entry_at(ns, ab).info.unbonding_period == unbonding_period
                &&& entry_at(ns, ab).info.bonded == 0
                &&& entry_at(ns, ab).info.claimed == 0
                &&& forall|ab2: Seq<u8>|
                    #[trigger] contains_addr(os, ab2) ==> entry_at(ns, ab2) == entry_at(os, ab2)
                &&& final(state).bonded == old(state).bonded
                &&& final(state).claimed == old(state).claimed
                &&& final(state).total_bonded == old(state).total_bonded
                &&& final(state).total_claimed == old(state).total_claimed
                &&& final(state).agent == old(state).agent
                &&& final(state).manager == old(state).manager
                &&& final(state).treasury == old(state).treasury
                &&& final(state).claims == old(state).claims
            })
        }),
{
    if !str_bytes_eq(sender, state.manager.as_str()) {
        return Err(ContractError::Unauthorized {});
    }
    if !list_contains(active_validators, validator_address.as_str()) {
        return Err(ContractError::NotInValidatorSet { validator: validator_address });
    }
    if registry_find(&state.validators, validator_address.as_str()).is_some() {
        return Err(ContractError::ValidatorAlreadyRegistered { validator: validator_address });
    }
    if !str_bytes_eq(bond_denom.as_str(), can_be_bonded_denom) {
        return Err(ContractError::DenominationCanNotBeBonded { denom: bond_denom });
    }
    let entry = ValidatorEntry {
        address: validator_address,
        info: ValidatorInfo { bond_denom, unbonding_period, bonded: 0, claimed: 0 },
    };
    registry_insert(&mut state.validators, entry);
    Ok(Vec::new())
}

/// Unregister a validator. Stake it still holds moves, by one redelegate
/// command and in the records, to the least-loaded other validator; the
/// sole holder of all stake cannot be removed.
pub fn execute_remove_validator(
    state: &mut State,
    sender: &str,
    src_validator_address: &str,
    delegation: &Option<Coin>,
) -> (r: Result<Vec<Command>, ContractError>)
    requires
        old(state).wf(),
        contains_addr(old(state).validators@, str_bytes(src_validator_address@)) ==> (
        (delegation is Some) == (entry_at(
            old(state).validators@,
            str_bytes(src_validator_address@),
        ).info.bonded > 0)),
    ensures
        final(state).wf(),
        r is Err ==> *final(state) == *old(state),
        !is_manager(*old(state), sender@) ==> r == Result::Err::<Vec<Command>, ContractError>(
            ContractError::Unauthorized {},
        ),
        ({
            let os = old(state).validators@;
            let ab = str_bytes(src_validator_address@);
            &&& is_manager(*old(state), sender@) && !contains_addr(os, ab) ==> (r matches Err(
                ContractError::NotRegisteredValidator { address },
            ) && address@ == src_validator_address@)
            &&& is_manager(*old(state), sender@) && contains_addr(os, ab) && delegation is Some
                && os.len() == 1 ==> r == Result::Err::<Vec<Command>, ContractError>(
                ContractError::CannotRedelegate {},
            )
            &&& is_manager(*old(state), sender@) && contains_addr(os, ab) && delegation is None
                ==> ({
                let ns = final(state).validators@;
                &&& r matches Ok(cmds) && cmds@.len() == 0
                &&& ns.len() == os.len() - 1
                &&& forall|ab2: Seq<u8>|
                    #[trigger] contains_addr(ns, ab2) == (contains_addr(os, ab2) && ab2 != ab)
                &&& forall|ab2: Seq<u8>|
                    #[trigger] contains_addr(os, ab2) && ab2 != ab ==> entry_at(ns, ab2)
                        == entry_at(os, ab2)
                &&& final(state).bonded == old(state).bonded
                &&& final(state).claimed == old(state).claimed
                &&& final(state).total_bonded == old(state).total_bonded
                &&& final(state).total_claimed == old(state).total_claimed
                &&& final(state).agent == old(state).agent
                &&& final(state).manager == old(state).manager
                &&& final(state).treasury == old(state).treasury
                &&& final(state).claims == old(state).claims
            })
            &&& is_manager(*old(state), sender@) && contains_addr(os, ab) && delegation is Some
                && os.len() >= 2 ==> ({
                let ns = final(state).validators@;
                let dst = if addr_b(os[0]) == ab {
                    addr_b(os[1])
                } else {
                    addr_b(os[0])
                };
                &&& ns.len() == os.len() - 1
                &&& forall|ab2: Seq<u8>|
                    #[trigger] contains_addr(ns, ab2) == (contains_addr(os, ab2) && ab2 != ab)
                &&& entry_at(ns, dst).info.bonded == entry_at(os, dst).info.bonded + entry_at(
                    os,
                    ab,
                ).info.bonded
                &&& entry_at(ns, dst).address == entry_at(os, dst).address
                &&& entry_at(ns, dst).info.bond_denom == entry_at(os, dst).info.bond_denom
                &&& entry_at(ns, dst).info.unbonding_period == entry_at(
                    os,
                    dst,
                ).info.unbonding_period
                &&& entry_at(ns, dst).info.claimed == entry_at(os, dst).info.claimed
                &&& forall|ab2: Seq<u8>|
                    #[trigger] contains_addr(os, ab2) && ab2 != ab && ab2 != dst ==> entry_at(
                        ns,
                        ab2,
                    ) == entry_at(os, ab2)
                &&& final(state).bonded == old(state).bonded
                &&& final(state).claimed == old(state).claimed
                &&& final(state).total_bonded == old(state).total_bonded
                &&& final(state).total_claimed == old(state).total_claimed
                &&& final(state).agent == old(state).agent
                &&& final(state).manager == old(state).manager
                &&& final(state).treasury == old(state).treasury
                &&& final(state).claims == old(state).claims
                &&& (r matches Ok(cmds) && cmds@.len() == 1 && (cmds@[0]
                    matches Command::Redelegate { src_validator, dst_validator, amount }
                    && src_validator@ == src_validator_address@ && str_bytes(dst_validator@)
                    == dst && (delegation matches Some(d) && amount.denom@ == d.denom@
                    && amount.amount == d.amount)))
            })
        }),
{
    if !str_bytes_eq(sender, state.manager.as_str()) {
        return Err(ContractError::Unauthorized {});
    }
    let ghost os = state.validators@;
    let ghost ab = str_bytes(src_validator_address@);
    let i = match registry_find(&state.validators, src_validator_address) {
        Option::Some(i) => i,
        Option::None => {
            return Err(
                ContractError::NotRegisteredValidator {
                    address: src_validator_address.to_owned(),
                },
            );
        },
    };
    proof {
        lemma_entry_at_is(os, i as int);
    }
    match delegation {
        Option::None => {
            registry_remove(&mut state.validators, i);
            Ok(Vec::new())
        },
        Option::Some(d) => {
            if state.validators.len() == 1 {
                return Err(ContractError::CannotRedelegate {});
            }
            let dst_validator_address = match chosen_validator(state, Option::Some(
                src_validator_address,
            )) {
                Ok(a) => a,
                Err(_) => {
                    proof {
                        assert(false);
                    }
                    return Err(ContractError::NoEligibleValidator {});
                },
            };
            let ghost dst_ab = str_bytes(dst_validator_address@);
            proof {
                // the destination is the least-loaded other validator
                lemma_entry_at_is(os, 0);
                if i != 0 {
                    lemma_entry_at_is(os, 1);
                    let di = idx_of(os, dst_ab);
                    assert(0 <= di < os.len() && addr_b(os[di]) == dst_ab);
                    if di != 0 {
                        assert(entry_lt(os[0], os[di]));
                        crate::state::lemma_entry_lt_asym(os[0], os[di]);
                    }
                } else {
                    let di = idx_of(os, dst_ab);
                    assert(0 <= di < os.len() && addr_b(os[di]) == dst_ab);
                    if di != 1 {
                        assert(di != 0);
                        assert(entry_lt(os[1], os[di]));
                        crate::state::lemma_entry_lt_asym(os[1], os[di]);
                    }
                }
            }
            let src_entry = registry_remove(&mut state.validators, i);
            let ghost mid = state.validators@;
            let di = match registry_find(&state.validators, dst_validator_address.as_str()) {
                Option::Some(di) => di,
                Option::None => {
                    proof {
                        assert(false);
                    }
                    return Err(ContractError::NoEligibleValidator {});
                },
            };
            proof {
                lemma_entry_at_is(mid, di as int);
                lemma_entry_bonded_le_sum(mid, di as int);
                crate::state::lemma_sum_bonded_nonneg(mid);
            }
            let dst_entry_bonded = state.validators[di].info.bonded;
            registry_update_bonded(
                &mut state.validators,
                di,
                dst_entry_bonded + src_entry.info.bonded,
            );
            proof {
                let ns = state.validators@;
                assert forall|ab2: Seq<u8>|
                    #[trigger] contains_addr(os, ab2) && ab2 != ab && ab2 != dst_ab
                    implies entry_at(ns, ab2) == entry_at(os, ab2) by {
                    assert(contains_addr(mid, ab2));
                    assert(entry_at(mid, ab2) == entry_at(os, ab2));
                    assert(ab2 != addr_b(mid[di as int]));
                    assert(entry_at(ns, ab2) == entry_at(mid, ab2));
                }
            }
            let mut cmds: Vec<Command> = Vec::new();
            cmds.push(
                Command::Redelegate {
                    src_validator: src_validator_address.to_owned(),
                    dst_validator: dst_validator_address,
                    amount: Coin { denom: d.denom.clone(), amount: d.amount },
                },
            );
            Ok(cmds)
        },
    }
}

/// The claims an unbond appends, in allocation order: one per selected
/// validator, owned by the depositor, maturing after that validator's
/// own unbonding period.
pub open spec fn unbond_claims_view(
    a: Seq<(Seq<u8>, int)>,
    os: Seq<ValidatorEntry>,
    ob: Seq<u8>,
    b: BlockInfo,
) -> Seq<(Seq<u8>, int, Expiration)> {
    Seq::new(
        a.len(),
        |k: int|
            (ob, a[k].1, spec_after(entry_at(os, a[k].0).info.unbonding_period, b)),
    )
}

/// Unbond `amount` for a depositor: split it by the allocation, lower
/// each selected validator's record and the bonded counter, append one
/// time-locked claim per selected validator — each maturing after that
/// validator's own unbonding period — and emit one undelegate command
/// per selected validator. A failed allocation changes nothing.
#[verifier::rlimit(100)]
pub fn execute_unbond(
    state: &mut State,
    sender: &str,
    nft_id: &str,
    amount: u128,
    can_be_bonded_denom: &str,
    block: &BlockInfo,
) -> (r: Result<Vec<Command>, ContractError>)
    requires
        old(state).wf(),
        amount > 0,
        old(state).claimed + amount <= u128::MAX,
        old(state).total_claimed + amount <= u128::MAX,
        forall|i: int|
            0 <= i < old(state).validators@.len() ==> duration_fits(
                (#[trigger] old(state).validators@[i]).info.unbonding_period,
                *block,
            ),
    ensures
        final(state).wf(),
        r is Err ==> *final(state) == *old(state),
        !is_agent(*old(state), sender@) ==> r == Result::Err::<Vec<Command>, ContractError>(
            ContractError::Unauthorized {},
        ),
        is_agent(*old(state), sender@) ==> ({
            let os = old(state).validators@;
            let db = str_bytes(can_be_bonded_denom@);
            let n = spec_calc_validator_number(os.len() as u64, amount) as int;
            let ob = str_bytes(nft_id@);
            match spec_unstake_allocation(os, amount as int, db, n) {
                Option::Some(a) => {
                    let ns = final(state).validators@;
                    &&& r matches Ok(cmds)
                    &&& ns.len() == os.len()
                    &&& forall|ab2: Seq<u8>|
                        #[trigger] contains_addr(ns, ab2) == contains_addr(os, ab2)
                    &&& forall|k: int|
                        0 <= k < a.len() ==> ({
                            let e0 = entry_at(os, (#[trigger] a[k]).0);
                            let e1 = entry_at(ns, a[k].0);
                            &&& e1.info.bonded == e0.info.bonded - a[k].1
                            &&& e1.address == e0.address
                            &&& e1.info.bond_denom == e0.info.bond_denom
                            &&& e1.info.unbonding_period == e0.info.unbonding_period
                            &&& e1.info.claimed == e0.info.claimed
                        })
                    &&& forall|ab2: Seq<u8>|
                        #[trigger] contains_addr(os, ab2) && (forall|k: int|
                            0 <= k < a.len() ==> (#[trigger] a[k]).0 != ab2) ==> entry_at(
                            ns,
                            ab2,
                        ) == entry_at(os, ab2)
                    &&& claims_view(final(state).claims@) == claims_view(old(state).claims@)
                        + unbond_claims_view(a, os, ob, *block)
                    &&& final(state).bonded == old(state).bonded - amount
                    &&& final(state).claimed == old(state).claimed + amount
                    &&& final(state).total_claimed == old(state).total_claimed + amount
                    &&& final(state).total_bonded == old(state).total_bonded
                    &&& final(state).agent == old(state).agent
                    &&& final(state).manager == old(state).manager
                    &&& final(state).treasury == old(state).treasury
                    &&& (r matches Ok(cmds) ==> cmds@.len() == a.len() && (forall|k: int|
                        0 <= k < a.len() ==> ((#[trigger] cmds@[k])
                            matches Command::Undelegate { validator, amount: c } && str_bytes(
                            validator@,
                        ) == a[k].0 && c.amount as int == a[k].1 && c.denom@
                            == can_be_bonded_denom@)))
                },
                Option::None => r is Err && *final(state) == *old(state) && (r matches Err(
                    ContractError::UnableUnstakeAmount { amount: am, number_validators: nv },
                ) && am == amount && nv == (if plan_a(os, amount as int / n, db, n).len()
                    == n {
                    n as u64
                } else {
                    os.len() as u64
                })),
            }
        }),
{
    if !str_bytes_eq(sender, state.agent.as_str()) {
        return Err(ContractError::Unauthorized {});
    }
    let ghost os = state.validators@;
    let ghost oc = state.claims@;
    let ghost db = str_bytes(can_be_bonded_denom@);
    let ghost ob = str_bytes(nft_id@);

    let total_number_validators = state.validators.len() as u64;
    let number_validators = calc_validator_number(total_number_validators, amount);

    let vec_address_coin = match chosen_validators_unstake(
        state,
        amount,
        can_be_bonded_denom,
        number_validators,
    ) {
        Ok(v) => v,
        Err(e) => {
            return Err(e);
        },
    };
    let ghost a = alloc_view(vec_address_coin@);
    proof {
        lemma_allocation_props(os, amount as int, db, number_validators as int);
        assert(a.take(0) =~= Seq::<(Seq<u8>, int)>::empty());
        assert(unbond_claims_view(a.take(0), os, ob, *block) =~= Seq::<(
            Seq<u8>,
            int,
            Expiration,
        )>::empty());
        assert(claims_view(oc) + unbond_claims_view(a.take(0), os, ob, *block) =~= claims_view(
            oc,
        ));
    }

    let mut cmds: Vec<Command> = Vec::new();
    let mut k: usize = 0;
    while k < vec_address_coin.len()
        invariant
            os == old(state).validators@,
            oc == old(state).claims@,
            ob == str_bytes(nft_id@),
            db == str_bytes(can_be_bonded_denom@),
            old(state).wf(),
            forall|i: int|
                0 <= i < os.len() ==> duration_fits(
                    (#[trigger] os[i]).info.unbonding_period,
                    *block,
                ),
            a == alloc_view(vec_address_coin@),
            a.len() == vec_address_coin@.len(),
            alloc_sum(a) == amount as int,
            forall|kk: int|
                0 <= kk < a.len() ==> contains_addr(os, (#[trigger] a[kk]).0) && 0 < a[kk].1
                    <= entry_at(os, a[kk].0).info.bonded,
            forall|kk: int, ll: int|
                #![trigger a[kk], a[ll]]
                0 <= kk < ll < a.len() ==> a[kk].0 != a[ll].0,
            forall|kk: int|
                0 <= kk < a.len() ==> (#[trigger] vec_address_coin@[kk]).1.denom@
                    == can_be_bonded_denom@,
            0 <= k <= a.len(),
            registry_sorted(state.validators@),
            registry_unique(state.validators@),
            state.validators@.len() == os.len(),
            forall|ab2: Seq<u8>|
                #[trigger] contains_addr(state.validators@, ab2) == contains_addr(os, ab2),
            forall|kk: int|
                0 <= kk < k ==> ({
                    let e0 = entry_at(os, (#[trigger] a[kk]).0);
                    let e1 = entry_at(state.validators@, a[kk].0);
                    &&& e1.info.bonded == e0.info.bonded - a[kk].1
                    &&& e1.address == e0.address
                    &&& e1.info.bond_denom == e0.info.bond_denom
                    &&& e1.info.unbonding_period == e0.info.unbonding_period
                    &&& e1.info.claimed == e0.info.claimed
                }),
            forall|ab2: Seq<u8>|
                #[trigger] contains_addr(os, ab2) && (forall|kk: int|
                    0 <= kk < k ==> (#[trigger] a[kk]).0 != ab2) ==> entry_at(
                    state.validators@,
                    ab2,
                ) == entry_at(os, ab2),
            sum_bonded(state.validators@) == sum_bonded(os) - alloc_sum(a.take(k as int)),
            claims_view(state.claims@) == claims_view(oc) + unbond_claims_view(
                a.take(k as int),
                os,
                ob,
                *block,
            ),
            sum_claims(state.claims@) == sum_claims(oc) + alloc_sum(a.take(k as int)),
            forall|i: int|
                0 <= i < state.claims@.len() ==> #[trigger] state.claims@[i].amount > 0,
            state.bonded == old(state).bonded,
            state.claimed == old(state).claimed,
            state.total_bonded == old(state).total_bonded,
            state.total_claimed == old(state).total_claimed,
            state.agent == old(state).agent,
            state.manager == old(state).manager,
            state.treasury == old(state).treasury,
            cmds@.len() == k,
            forall|kk: int|
                0 <= kk < k ==> ((#[trigger] cmds@[kk]) matches Command::Undelegate {
                    validator,
                    amount: c,
                } && str_bytes(validator@) == a[kk].0 && c.amount as int == a[kk].1 && c.denom@
                    == can_be_bonded_denom@),
        decreases a.len() - k,
    {
        let ghost cur = state.validators@;
        let ghost ck = state.claims@;
        proof {
            assert(a[k as int] == (str_bytes(vec_address_coin@[k as int].0@),
            vec_address_coin@[k as int].1.amount as int));
            assert(forall|kk: int| 0 <= kk < k ==> (#[trigger] a[kk]).0 != a[k as int].0);
            assert(contains_addr(os, a[k as int].0));
            assert(entry_at(cur, a[k as int].0) == entry_at(os, a[k as int].0));
        }
        let i = match registry_find(&state.validators, vec_address_coin[k].0.as_str()) {
            Option::Some(i) => i,
            Option::None => {
                proof {
                    assert(false);
                }
                return Err(ContractError::NoEligibleValidator {});
            },
        };
        proof {
            lemma_entry_at_is(cur, i as int);
            assert(cur[i as int] == entry_at(os, a[k as int].0));
        }
        let e_bonded = state.validators[i].info.bonded;
        let e_period = state.validators[i].info.unbonding_period;
        let amt_k = vec_address_coin[k].1.amount;
        registry_update_bonded(&mut state.validators, i, e_bonded - amt_k);
        proof {
            let nv = state.validators@;
            assert(a.take(k as int + 1) =~= a.take(k as int).push(a[k as int]));
            lemma_alloc_sum_push(a.take(k as int), a[k as int]);
            assert forall|ab2: Seq<u8>|
                #[trigger] contains_addr(os, ab2) && (forall|kk: int|
                    0 <= kk < k + 1 ==> (#[trigger] a[kk]).0 != ab2) implies entry_at(nv, ab2)
                == entry_at(os, ab2) by {
                assert(contains_addr(cur, ab2));
                assert(entry_at(cur, ab2) == entry_at(os, ab2));
                assert(ab2 != addr_b(cur[i as int]));
                assert(entry_at(nv, ab2) == entry_at(cur, ab2));
            }
            assert forall|kk: int| 0 <= kk < k + 1 implies ({
                let e0 = entry_at(os, (#[trigger] a[kk]).0);
                let e1 = entry_at(nv, a[kk].0);
                &&& e1.info.bonded == e0.info.bonded - a[kk].1
                &&& e1.address == e0.address
                &&& e1.info.bond_denom == e0.info.bond_denom
                &&& e1.info.unbonding_period == e0.info.unbonding_period
                &&& e1.info.claimed == e0.info.claimed
            }) by {
                if kk < k {
                    assert(a[kk].0 != a[k as int].0);
                    assert(contains_addr(cur, a[kk].0));
                    assert(a[kk].0 != addr_b(cur[i as int]));
                    assert(entry_at(nv, a[kk].0) == entry_at(cur, a[kk].0));
                }
            }
        }
        let release_at = {
            proof {
                let oi = idx_of(os, a[k as int].0);
                assert(0 <= oi < os.len() && addr_b(os[oi]) == a[k as int].0);
                assert(duration_fits((os[oi]).info.unbonding_period, *block));
            }
            e_period.after(block)
        };
        let ghost ck0 = state.claims@;
        create_claim(&mut state.claims, nft_id.to_owned(), amt_k, release_at);
        proof {
            lemma_sum_claims_push(ck0, state.claims@.last());
            assert(claims_view(state.claims@) =~= claims_view(ck0).push(
                (ob, amt_k as int, release_at),
            ));
            assert(unbond_claims_view(a.take(k as int + 1), os, ob, *block)
                =~= unbond_claims_view(a.take(k as int), os, ob, *block).push(
                (ob, a[k as int].1, spec_after(entry_at(os, a[k as int].0).info.unbonding_period,
                *block)),
            ));
            assert(claims_view(oc) + unbond_claims_view(a.take(k as int + 1), os, ob, *block)
                =~= (claims_view(oc) + unbond_claims_view(a.take(k as int), os, ob, *block)).push(
                (ob, a[k as int].1, spec_after(entry_at(os, a[k as int].0).info.unbonding_period,
                *block)),
            ));
        }
        cmds.push(
            Command::Undelegate {
                validator: vec_address_coin[k].0.clone(),
                amount: Coin { denom: vec_address_coin[k].1.denom.clone(), amount: amt_k },
            },
        );
        k += 1;
    }
    proof {
        assert(a.take(a.len() as int) =~= a);
        crate::state::lemma_sum_bonded_nonneg(state.validators@);
    }
    state.bonded = state.bonded - amount;
    state.claimed = state.claimed + amount;
    state.total_claimed = state.total_claimed + amount;
    Ok(cmds)
}

/// Pay out the depositor's matured claims: their entries leave the
/// ledger, the claimed counter falls by their sum, and one transfer
/// command is emitted — or nothing changes, where nothing has matured
/// or the pool's balance cannot cover the sum.
pub fn execute_claim(
    state: &mut State,
    sender: &str,
    nft_id: &str,
    recipient: &str,
    balance: &Coin,
    block: &BlockInfo,
) -> (r: Result<Vec<Command>, ContractError>)
    requires
        old(state).wf(),
    ensures
        final(state).wf(),
        r is Err ==> *final(state) == *old(state),
        !is_agent(*old(state), sender@) ==> r == Result::Err::<Vec<Command>, ContractError>(
            ContractError::Unauthorized {},
        ),
        ({
            let ob = str_bytes(nft_id@);
            let ts = release_sum(old(state).claims@, ob, *block, Option::None, 0);
            &&& is_agent(*old(state), sender@) && ts == 0 ==> r == Result::Err::<
                Vec<Command>,
                ContractError,
            >(ContractError::NothingToClaim {})
            &&& is_agent(*old(state), sender@) && ts > 0 && (balance.amount as int) < ts ==> r
                == Result::Err::<Vec<Command>, ContractError>(ContractError::BalanceTooSmall {})
            &&& is_agent(*old(state), sender@) && ts > 0 && (balance.amount as int) >= ts
                ==> ({
                &&& r matches Ok(cmds) && cmds@.len() == 1 && (cmds@[0]
                    matches Command::Send { to_address, amount } && to_address@ == recipient@
                    && amount.denom@ == balance.denom@ && amount.amount as int == ts)
                &&& final(state).claims@ == release_kept(
                    old(state).claims@,
                    ob,
                    *block,
                    Option::None,
                    0,
                )
                &&& final(state).claimed as int == old(state).claimed - ts
                &&& final(state).validators == old(state).validators
                &&& final(state).bonded == old(state).bonded
                &&& final(state).total_bonded == old(state).total_bonded
                &&& final(state).total_claimed == old(state).total_claimed
                &&& final(state).agent == old(state).agent
                &&& final(state).manager == old(state).manager
                &&& final(state).treasury == old(state).treasury
            })
        }),
{
    if !str_bytes_eq(sender, state.agent.as_str()) {
        return Err(ContractError::Unauthorized {});
    }
    let ghost oc = state.claims@;
    let ghost ob = str_bytes(nft_id@);
    proof {
        crate::claims::lemma_release_sum_bounds(oc, ob, *block, Option::None, 0);
    }
    let to_send = released_amount(&state.claims, nft_id, block, Option::None);
    if to_send == 0 {
        return Err(ContractError::NothingToClaim {});
    }
    if balance.amount < to_send {
        return Err(ContractError::BalanceTooSmall {});
    }
    let got = claim_tokens(&mut state.claims, nft_id, block, Option::None);
    proof {
        crate::claims::lemma_release_partition(oc, ob, *block, Option::None, 0);
        crate::claims::lemma_release_kept_positive(oc, ob, *block, Option::None, 0);
    }
    state.claimed = state.claimed - to_send;
    let mut cmds: Vec<Command> = Vec::new();
    cmds.push(
        Command::Send {
            to_address: recipient.to_owned(),
            amount: Coin { denom: balance.denom.clone(), amount: to_send },
        },
    );
    Ok(cmds)
}

/// What a query must answer on a given state.
pub open spec fn query_post(
    state: State,
    msg: QueryMsg,
    r: Result<QueryAnswer, ContractError>,
) -> bool {
    match msg {
        QueryMsg::Claims { nft_id } => r matches Ok(QueryAnswer::Claims { claims })
            && claims@ == spec_claims_of(state.claims@, str_bytes(nft_id@)),
        QueryMsg::ValidatorInfo { address } => {
            let s = state.validators@;
            let ab = str_bytes(address@);
            if contains_addr(s, ab) {
                let e = entry_at(s, ab);
                r matches Ok(QueryAnswer::ValidatorInfo { info })
                    && info.bond_denom@ == e.info.bond_denom@ && info.unbonding_period
                    == e.info.unbonding_period && info.bonded == e.info.bonded
                    && info.claimed == e.info.claimed
            } else {
                r matches Err(ContractError::NotRegisteredValidator { address: a }) && a@
                    == address@
            }
        },
        QueryMsg::TotalBonded {} => r == Result::Ok::<QueryAnswer, ContractError>(
            QueryAnswer::Amount { amount: state.total_bonded },
        ),
        QueryMsg::TotalClaimed {} => r == Result::Ok::<QueryAnswer, ContractError>(
            QueryAnswer::Amount { amount: state.total_claimed },
        ),
        QueryMsg::ContractBonded {} => r == Result::Ok::<QueryAnswer, ContractError>(
            QueryAnswer::Amount { amount: state.bonded },
        ),
        QueryMsg::ContractClaimed {} => r == Result::Ok::<QueryAnswer, ContractError>(
            QueryAnswer::Amount { amount: state.claimed },
        ),
        QueryMsg::BondedOnValidator { address } => r matches Ok(QueryAnswer::ChainDelegation {
            address: a,
        }) && a@ == address@,
        QueryMsg::Agent {} => r matches Ok(QueryAnswer::Address { address: a }) && a@
            == state.agent@,
        QueryMsg::Manager {} => r matches Ok(QueryAnswer::Address { address: a }) && a@
            == state.manager@,
        QueryMsg::RewardsBalance {} => r == Result::Ok::<QueryAnswer, ContractError>(
            QueryAnswer::ChainBalance {},
        ),
    }
}

/// Answer a read-only question. The state is only read: repeated queries
/// without an intervening mutation answer identically.
pub fn query(state: &State, msg: &QueryMsg) -> (r: Result<QueryAnswer, ContractError>)
    requires
        state.wf(),
    ensures
        query_post(*state, *msg, r),
{
    match msg {
        QueryMsg::Claims { nft_id } => {
            let claims = claims_of(&state.claims, nft_id.as_str());
            Ok(QueryAnswer::Claims { claims })
        },
        QueryMsg::ValidatorInfo { address } => {
            match registry_find(&state.validators, address.as_str()) {
                Option::Some(i) => {
                    let e = &state.validators[i];
                    proof {
                        lemma_entry_at_is(state.validators@, i as int);
                    }
                    let info = ValidatorInfo {
                        bond_denom: e.info.bond_denom.clone(),
                        unbonding_period: e.info.unbonding_period,
                        bonded: e.info.bonded,
                        claimed: e.info.claimed,
                    };
                    Ok(QueryAnswer::ValidatorInfo { info })
                },
                Option::None => Err(
                    ContractError::NotRegisteredValidator { address: address.clone() },
                ),
            }
        },
        QueryMsg::TotalBonded {} => Ok(QueryAnswer::Amount { amount: state.total_bonded }),
        QueryMsg::TotalClaimed {} => Ok(QueryAnswer::Amount { amount: state.total_claimed }),
        QueryMsg::ContractBonded {} => Ok(QueryAnswer::Amount { amount: state.bonded }),
        QueryMsg::ContractClaimed {} => Ok(QueryAnswer::Amount { amount: state.claimed }),
        QueryMsg::BondedOnValidator { address } => Ok(
            QueryAnswer::ChainDelegation { address: address.clone() },
        ),
        QueryMsg::Agent {} => Ok(QueryAnswer::Address { address: state.agent.clone() }),
        QueryMsg::Manager {} => Ok(QueryAnswer::Address { address: state.manager.clone() }),
        QueryMsg::RewardsBalance {} => Ok(QueryAnswer::ChainBalance {}),
    }
}

} // verus!
