//! Laws of the pool, stated and proved over the same spec functions the
//! operation contracts use. The exact-sum law of the unbond allocation
//! stands in `contract::lemma_allocation_props` and in the allocator's
//! own contract.

use vstd::prelude::*;

use crate::contract::{query_post, spec_calc_validator_number};
use crate::error::ContractError;
use crate::msg::{QueryAnswer, QueryMsg};
use crate::state::State;

verus! {

/// Law: growing the registry never lowers the chosen validator count,
/// for any fixed amount.
pub proof fn lemma_calc_validator_number_monotonic(t1: u64, t2: u64, amount: u128)
    requires
        t1 <= t2,
    ensures
        spec_calc_validator_number(t1, amount) <= spec_calc_validator_number(t2, amount),
{
}

/// Law: the chosen validator count is always one of the candidates —
/// products of two and five — and never exceeds the registry size.
pub proof fn lemma_calc_validator_number_bounds(total: u64, amount: u128)
    requires
        total >= 1,
    ensures
        ({
            let n = spec_calc_validator_number(total, amount);
            &&& n == 1 || n == 2 || n == 4 || n == 5 || n == 8 || n == 10
            &&& 1 <= n <= total
        }),
{
}

/// Law: a bond of `amount` followed immediately by an unbond of the same
/// amount restores the aggregate bonded counter to its pre-bond value,
/// while the lifetime bonded total keeps only the bond. The hypotheses
/// are exactly what `execute_bond` and `execute_unbond` guarantee of the
/// counters on success.
pub proof fn lemma_bond_unbond_round_trip(s0: State, s1: State, s2: State, amount: u128)
    requires
        s1.bonded == s0.bonded + amount,
        s1.total_bonded == s0.total_bonded + amount,
        s2.bonded == s1.bonded - amount,
        s2.total_bonded == s1.total_bonded,
    ensures
        s2.bonded == s0.bonded,
        s2.total_bonded == s0.total_bonded + amount,
{
}

/// Whether two query outcomes carry the same observable content: the
/// same amounts, and the same characters in every string.
pub open spec fn query_answers_agree(
    r1: Result<QueryAnswer, ContractError>,
    r2: Result<QueryAnswer, ContractError>,
) -> bool {
    match (r1, r2) {
        (Result::Ok(a1), Result::Ok(a2)) => match (a1, a2) {
            (
                QueryAnswer::Claims { claims: c1 },
                QueryAnswer::Claims { claims: c2 },
            ) => c1@ == c2@,
            (
                QueryAnswer::ValidatorInfo { info: i1 },
                QueryAnswer::ValidatorInfo { info: i2 },
            ) => i1.bond_denom@ == i2.bond_denom@ && i1.unbonding_period == i2.unbonding_period
                && i1.bonded == i2.bonded && i1.claimed == i2.claimed,
            (QueryAnswer::Amount { amount: x1 }, QueryAnswer::Amount { amount: x2 }) => x1
                == x2,
            (QueryAnswer::Address { address: x1 }, QueryAnswer::Address { address: x2 }) => x1@
                == x2@,
            (
                QueryAnswer::ChainDelegation { address: x1 },
                QueryAnswer::ChainDelegation { address: x2 },
            ) => x1@ == x2@,
            (QueryAnswer::ChainBalance {  }, QueryAnswer::ChainBalance {  }) => true,
            _ => false,
        },
        (Result::Err(e1), Result::Err(e2)) => (e1 matches ContractError::NotRegisteredValidator {
            address: x1,
        } && (e2 matches ContractError::NotRegisteredValidator { address: x2 } && x1@ == x2@)),
        _ => false,
    }
}

/// Law: queries are idempotent. Without an intervening mutation — the
/// same state value — two reads with the same question are answered with
/// the same observable content.
pub proof fn lemma_query_idempotent(
    s: State,
    m: QueryMsg,
    r1: Result<QueryAnswer, ContractError>,
    r2: Result<QueryAnswer, ContractError>,
)
    requires
        query_post(s, m, r1),
        query_post(s, m, r2),
    ensures
        r1 is Ok <==> r2 is Ok,
        query_answers_agree(r1, r2),
{
}

} // verus!
