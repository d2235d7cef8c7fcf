//! The error taxonomy of the pool core: one variant per failure kind,
//! carrying the structured data needed to reproduce the message.

use vstd::prelude::*;

verus! {

/// Why a request was refused. Every failure is terminal for the request:
/// no state change survives an error.
#[derive(Debug, Clone, PartialEq, Eq)]
pub enum ContractError {
    /// The caller does not hold the required role.
    Unauthorized {},
    /// The address is not part of the externally recognized validator set.
    NotInValidatorSet { validator: String },
    /// Externally observed delegations mix denominations.
    DifferentBondDenom { denom1: String, denom2: String },
    /// No funds, or only a zero amount, attached to the request.
    NoFunds {},
    /// More than one denomination attached to the request.
    MultipleDenoms {},
    /// An unrecognized coin attached to the request.
    InvalidCoin {},
    /// The validator is already registered with this pool.
    ValidatorAlreadyRegistered { validator: String },
    /// The denomination does not match the one the pool accepts.
    DenominationCanNotBeBonded { denom: String },
    /// Chain-observed and internally tracked bonded totals disagree.
    BondedDiffer { total_bonded: u128, state_total_bonded: u128 },
    /// The requested unbond amount cannot be covered exactly.
    UnableUnstakeAmount { amount: u128, number_validators: u64 },
    /// The validator is not registered with this pool.
    NotRegisteredValidator { address: String },
    /// No claim of the depositor has matured yet.
    NothingToClaim {},
    /// The pool's free balance cannot honor the matured claims.
    BalanceTooSmall {},
    /// The sole registered validator's stake has no destination to move to.
    CannotRedelegate {},
    /// No registered validator is eligible to receive the deposit.
    NoEligibleValidator {},
    /// The free balance is zero; there is nothing to transfer.
    NothingToTransfer {},
}

} // verus!
