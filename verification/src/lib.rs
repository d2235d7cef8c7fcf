//! Delegation pool core: validator registry with a bonded-amount ordering,
//! bond/unbond allocation algorithms, and a time-locked claim ledger.
//!
//! The library computes allocation decisions and bookkeeping over plain
//! values and emits abstract commands; an outside executor performs the
//! actual ledger operations (delegation, transfers, chain queries).

use vstd::prelude::*;

pub mod claims;
pub mod contract;
pub mod error;
pub mod laws;
pub mod msg;
pub mod order;
pub mod registry;
pub mod state;
pub mod time;
