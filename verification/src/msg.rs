//! Request and answer types, and the abstract commands the pool emits for
//! the outside executor.

use vstd::prelude::*;

use crate::state::ValidatorInfo;
use crate::time::{Duration, Expiration};

verus! {

/// A coin: an amount of one denomination.
#[derive(Debug, Clone, PartialEq, Eq)]
pub struct Coin {
    pub denom: String,
    pub amount: u128,
}

/// One pending release as reported to a caller.
#[derive(Debug, Clone, Copy, PartialEq, Eq)]
pub struct Claim {
    pub amount: u128,
    pub release_at: Expiration,
}

/// An abstract ledger operation for the outside executor to carry out.
#[derive(Debug, Clone, PartialEq, Eq)]
pub enum Command {
    /// Delegate the coin to the validator.
    Delegate { validator: String, amount: Coin },
    /// Undelegate the coin from the validator.
    Undelegate { validator: String, amount: Coin },
    /// Move a whole delegation from one validator to another.
    Redelegate { src_validator: String, dst_validator: String, amount: Coin },
    /// Withdraw the accumulated rewards from the validator.
    WithdrawReward { validator: String },
    /// Transfer the coin to the address.
    Send { to_address: String, amount: Coin },
}

/// The configured roles of a fresh pool.
#[derive(Debug, Clone, PartialEq, Eq)]
pub struct InstantiateMsg {
    pub agent: String,
    pub manager: String,
    pub treasury: String,
}

/// The operations the pool accepts.
#[derive(Debug, Clone, PartialEq, Eq)]
pub enum ExecuteMsg {
    /// Bond the attached payment on behalf of the depositor.
    Bond { nft_id: u128 },
    /// Unbond this amount on behalf of the depositor.
    Unbond { nft_id: u128, amount: u128 },
    /// Pay out the depositor's matured claims to the recipient.
    Claim { nft_id: u128, sender: String },
    /// Register a validator.
    AddValidator { address: String, bond_denom: String, unbonding_period: Duration },
    /// Unregister a validator, moving its stake elsewhere if it has any.
    RemoveValidator { address: String },
    /// Compare tracked and chain-observed bonded totals.
    BondCheck {},
    /// Withdraw rewards from every validator with stake.
    CollectAngelRewards {},
    /// Transfer the pool's free balance to the treasury.
    TransferBalanceToTreasury {},
}

/// The read-only questions the pool answers.
#[derive(Debug, Clone, PartialEq, Eq)]
pub enum QueryMsg {
    /// The depositor's pending claims.
    Claims { nft_id: String },
    /// The record of one registered validator.
    ValidatorInfo { address: String },
    /// Lifetime total bonded.
    TotalBonded {},
    /// Lifetime total claimed.
    TotalClaimed {},
    /// Currently bonded.
    ContractBonded {},
    /// Currently awaiting release.
    ContractClaimed {},
    /// The chain-observed delegation to one validator.
    BondedOnValidator { address: String },
    /// The configured agent.
    Agent {},
    /// The configured manager.
    Manager {},
    /// The pool's free balance in the bonded denomination.
    RewardsBalance {},
}

/// A query's answer. The two `Chain` variants name a lookup only the
/// outside executor can perform; it carries the answer back itself.
#[derive(Debug, Clone, PartialEq, Eq)]
pub enum QueryAnswer {
    /// The depositor's pending claims, in ledger order.
    Claims { claims: Vec<Claim> },
    /// The record of the requested validator.
    ValidatorInfo { info: ValidatorInfo },
    /// A plain amount.
    Amount { amount: u128 },
    /// A configured address.
    Address { address: String },
    /// Read the delegation of this validator from the chain and feed it
    /// through `query_bonded_on_validator`.
    ChainDelegation { address: String },
    /// Read the pool's free balance in the bonded denomination from the
    /// chain.
    ChainBalance {},
}

} // verus!
